//! Turns the operation of a marker into the tool call that the registry knows.
//!
//! Prompts name some tools by an alias. An alias stands for a registered tool
//! and may imply a `scope`. A semantic note needs a summary; where the model
//! left it out, it is derived from one of three other fields.

use vstd::prelude::*;

use crate::json::{lemma_member_push, member, Json};
use crate::text::{chars_of, slice_of, str_eq, trim, trimmed};

verus! {

/// An alias of a tool.
#[derive(Clone, Copy, Debug)]
pub struct ToolAlias {
    /// The name that prompts use.
    pub from: &'static str,
    /// The registered name.
    pub to: &'static str,
    /// The `scope` that a semantic note gets when the model gave none.
    pub implied_scope: Option<&'static str>,
}

/// The registered name behind an alias.
pub open spec fn alias_target(raw: Seq<char>) -> Option<Seq<char>> {
    if raw == "record_system_feedback"@ {
        Some("save_behavior"@)
    } else if raw == "record_research_plan"@ {
        Some("save_semantic"@)
    } else {
        None
    }
}

/// The `scope` that an alias implies.
pub open spec fn alias_scope(raw: Seq<char>) -> Option<Seq<char>> {
    if raw == "record_research_plan"@ && raw != "record_system_feedback"@ {
        Some("plan"@)
    } else {
        None
    }
}

/// The registered name of a tool, by its alias or by itself.
pub open spec fn canonical(raw: Seq<char>) -> Seq<char> {
    match alias_target(raw) {
        Some(to) => to,
        None => raw,
    }
}

/// The alias with the name `raw`.
pub fn find_alias(raw: &str) -> (r: Option<ToolAlias>)
    ensures
        match r {
            Some(a) => {
                &&& a.from@ == raw@
                &&& alias_target(raw@) == Some(a.to@)
                &&& alias_scope(raw@) == (match a.implied_scope {
                    Some(s) => Some(s@),
                    None => None,
                })
            },
            None => alias_target(raw@) is None && alias_scope(raw@) is None,
        },
{
    if str_eq(raw, "record_system_feedback") {
        Some(
            ToolAlias { from: "record_system_feedback", to: "save_behavior", implied_scope: None },
        )
    } else if str_eq(raw, "record_research_plan") {
        Some(
            ToolAlias {
                from: "record_research_plan",
                to: "save_semantic",
                implied_scope: Some("plan"),
            },
        )
    } else {
        None
    }
}

/// The registered name behind an alias; `None` for a name that is no alias.
pub fn canonicalize(raw: &str) -> (r: Option<&'static str>)
    ensures
        match r {
            Some(to) => alias_target(raw@) == Some(to@),
            None => alias_target(raw@) is None,
        },
{
    match find_alias(raw) {
        Some(a) => Some(a.to),
        None => None,
    }
}

/// A summary: the text without the white space around it, and where that has
/// more than 200 characters, the first 197 of them and an ellipsis.
pub open spec fn summary_of(s: Seq<char>) -> Seq<char> {
    let t = trimmed(s);
    if t.len() > 200 {
        t.take(197).push('…')
    } else {
        t
    }
}

/// A summary of at most 200 characters.
pub fn derive_summary(s: &str) -> (r: String)
    ensures
        r@ == summary_of(s@),
{
    let t = trim(s);
    let v = chars_of(t.as_str());
    if v.len() > 200 {
        let mut out = slice_of(&v, 0, 197);
        proof {
            assert(v@.subrange(0, 197) =~= v@.take(197));
        }
        out.push('…');
        out
    } else {
        t
    }
}

/// A summary never has more than 200 characters.
pub proof fn law_summary_is_short(s: Seq<char>)
    ensures
        summary_of(s).len() <= 200,
{
}

/// Why a tool call is refused.
#[derive(Clone, Copy, Debug, PartialEq, Eq, Structural)]
pub enum NormalizeError {
    NotAnObject,
    MissingSummary,
}

impl NormalizeError {
    /// The reason in words.
    pub fn message(self) -> (r: &'static str)
        ensures
            r@ == (match self {
                NormalizeError::NotAnObject => "save_semantic: payload must be a JSON object"@,
                NormalizeError::MissingSummary =>
                    "save_semantic: missing 'summary' and no recognized alternative (objective/verdict/statement)"@,
            }),
    {
        match self {
            NormalizeError::NotAnObject => "save_semantic: payload must be a JSON object",
            NormalizeError::MissingSummary =>
                "save_semantic: missing 'summary' and no recognized alternative (objective/verdict/statement)",
        }
    }
}

/// The text that a summary is derived from: the first of three fields that holds
/// a string.
pub open spec fn summary_source(payload: Json) -> Option<Seq<char>> {
    match payload.text_at("objective"@) {
        Some(s) => Some(s),
        None => match payload.text_at("verdict"@) {
            Some(s) => Some(s),
            None => payload.text_at("statement"@),
        },
    }
}

/// Why a call of `raw` with `payload` is refused.
pub open spec fn refusal(raw: Seq<char>, payload: Json) -> Option<NormalizeError> {
    if canonical(raw) != "save_semantic"@ {
        None
    } else if !(payload is Object) {
        Some(NormalizeError::NotAnObject)
    } else if payload.spec_get("summary"@) is None && summary_source(payload) is None {
        Some(NormalizeError::MissingSummary)
    } else {
        None
    }
}

/// Whether `out` is the payload of a semantic note made from `payload`: the
/// scope is filled in where it is missing and implied, the summary where it is
/// missing, and every other member stays.
pub open spec fn completes(raw: Seq<char>, payload: Json, out: Json) -> bool {
    &&& out is Object
    &&& forall|key: Seq<char>|
        key != "scope"@ && key != "summary"@ ==> #[trigger] out.spec_get(key)
            == payload.spec_get(key)
    &&& match (payload.spec_get("scope"@), alias_scope(raw)) {
        (None, Some(scope)) => out.text_at("scope"@) == Some(scope),
        (given, _) => out.spec_get("scope"@) == given,
    }
    &&& match payload.spec_get("summary"@) {
        Some(given) => out.spec_get("summary"@) == Some(given),
        None => summary_source(payload) matches Some(s) && out.text_at("summary"@) == Some(
            summary_of(s),
        ),
    }
}

/// Turns a marker into the call of a registered tool. Only a semantic note is
/// looked into: it must be an object, and its scope and summary are filled in.
pub fn normalize(raw_op: &str, payload: Json) -> (r: Result<(String, Json), NormalizeError>)
    ensures
        match refusal(raw_op@, payload) {
            Some(e) => r == Err::<(String, Json), NormalizeError>(e),
            None => r matches Ok(call) && call.0@ == canonical(raw_op@) && (if canonical(raw_op@)
                == "save_semantic"@ {
                completes(raw_op@, payload, call.1)
            } else {
                call.1 == payload
            }),
        },
{
    let alias = find_alias(raw_op);
    let op = match alias {
        Some(a) => a.to.to_owned(),
        None => raw_op.to_owned(),
    };
    if !str_eq(op.as_str(), "save_semantic") {
        return Ok((op, payload));
    }
    let ghost given = payload;
    let source = match payload.str_at("objective") {
        Some(s) => Some(s),
        None => match payload.str_at("verdict") {
            Some(s) => Some(s),
            None => payload.str_at("statement"),
        },
    };
    let has_scope = payload.get("scope").is_some();
    let has_summary = payload.get("summary").is_some();
    let mut fields = match payload {
        Json::Object(fields) => fields,
        _ => {
            return Err(NormalizeError::NotAnObject);
        },
    };
    let ghost start = fields@;
    proof {
        reveal_strlit("scope");
        reveal_strlit("summary");
        assert("scope"@.len() != "summary"@.len());
    }
    if !has_scope {
        if let Some(a) = alias {
            if let Some(scope) = a.implied_scope {
                let entry = ("scope".to_owned(), Json::Str(scope.to_owned()));
                let ghost e = entry;
                fields.push(entry);
                proof {
                    assert forall|key: Seq<char>| #[trigger]
                        member(fields@, key) == (match member(start, key) {
                            Some(v) => Some(v),
                            None => if e.0@ == key {
                                Some(e.1)
                            } else {
                                None
                            },
                        }) by {
                        lemma_member_push(start, e, key);
                    }
                }
            }
        }
    }
    let ghost scoped = fields@;
    proof {
        assert forall|key: Seq<char>| key != "scope"@ implies #[trigger] member(scoped, key)
            == member(start, key) by {}
    }
    if !has_summary {
        match source {
            Some(s) => {
                let entry = (
                    "summary".to_owned(),
                    Json::Str(derive_summary(s.as_str())),
                );
                let ghost e = entry;
                fields.push(entry);
                proof {
                    assert forall|key: Seq<char>| #[trigger]
                        member(fields@, key) == (match member(scoped, key) {
                            Some(v) => Some(v),
                            None => if e.0@ == key {
                                Some(e.1)
                            } else {
                                None
                            },
                        }) by {
                        lemma_member_push(scoped, e, key);
                    }
                }
            },
            None => {
                return Err(NormalizeError::MissingSummary);
            },
        }
    }
    let out = Json::Object(fields);
    proof {
        assert forall|key: Seq<char>| #[trigger] out.spec_get(key) == member(fields@, key) by {}
        assert(given.spec_get("scope"@) == member(start, "scope"@));
        assert(given.spec_get("summary"@) == member(start, "summary"@));
        assert(member(scoped, "summary"@) == member(start, "summary"@));
        assert forall|key: Seq<char>| key != "scope"@ && key != "summary"@ implies #[trigger]
            out.spec_get(key) == given.spec_get(key) by {
            assert(member(fields@, key) == member(scoped, key));
            assert(member(scoped, key) == member(start, key));
        }
        assert(out.spec_get("scope"@) == member(fields@, "scope"@));
        assert(out.spec_get("summary"@) == member(fields@, "summary"@));
    }
    Ok((op, out))
}

/// A registered name is no alias, so looking a name up twice changes nothing.
pub proof fn law_canonical_is_stable(raw: Seq<char>)
    ensures
        canonical(canonical(raw)) == canonical(raw),
{
    reveal_strlit("record_system_feedback");
    reveal_strlit("record_research_plan");
    reveal_strlit("save_behavior");
    reveal_strlit("save_semantic");
}

/// A completed note is complete: it is accepted again under its registered name,
/// and nothing more is filled in.
pub proof fn law_completed_note_stays(raw: Seq<char>, payload: Json, out: Json, again: Json)
    requires
        canonical(raw) == "save_semantic"@,
        refusal(raw, payload) is None,
        completes(raw, payload, out),
        completes("save_semantic"@, out, again),
    ensures
        refusal("save_semantic"@, out) is None,
        forall|key: Seq<char>| #[trigger] again.spec_get(key) == out.spec_get(key),
{
    law_canonical_is_stable(raw);
    reveal_strlit("record_research_plan");
    reveal_strlit("save_semantic");
    assert("save_semantic"@.len() != "record_research_plan"@.len());
    assert(alias_scope("save_semantic"@) is None);
    assert(out.spec_get("summary"@) is Some);
}

/// The two aliases and what they stand for; every other name stands for itself and
/// implies no scope.
pub proof fn law_what_aliases_stand_for(raw: Seq<char>)
    ensures
        canonical("record_system_feedback"@) == "save_behavior"@,
        canonical("record_research_plan"@) == "save_semantic"@,
        alias_scope("record_research_plan"@) == Some("plan"@),
        alias_scope("record_system_feedback"@) is None,
        raw != "record_system_feedback"@ && raw != "record_research_plan"@ ==> canonical(raw)
            == raw && alias_target(raw) is None && alias_scope(raw) is None,
{
    reveal_strlit("record_system_feedback");
    reveal_strlit("record_research_plan");
    assert("record_system_feedback"@.len() != "record_research_plan"@.len());
}

/// A text of at most 200 characters without white space around it is its own summary;
/// of a longer one the summary is its beginning and an ellipsis.
pub proof fn law_short_text_is_its_summary(s: Seq<char>)
    requires
        s.len() > 0,
        !crate::text::white_space(s[0]),
        !crate::text::white_space(s.last()),
    ensures
        s.len() <= 200 ==> summary_of(s) == s,
        s.len() > 200 ==> summary_of(s).len() == 198 && summary_of(s).last() == '…' && summary_of(
            s,
        ).drop_last() == s.take(197),
{
    crate::text::law_trimming_takes_white_space(Seq::empty(), s, Seq::empty());
    assert(Seq::<char>::empty() + s + Seq::<char>::empty() =~= s);
    assert(s.take(197).push('…').drop_last() =~= s.take(197));
}

/// A semantic note is refused exactly where it is no object, or has no summary and
/// nothing to make one of; no other call is ever refused.
pub proof fn law_which_calls_are_refused(raw: Seq<char>, payload: Json)
    ensures
        ({
            let note = raw == "save_semantic"@ || raw == "record_research_plan"@;
            let blank = payload.spec_get("summary"@) is None && payload.text_at("objective"@)
                is None && payload.text_at("verdict"@) is None && payload.text_at("statement"@)
                is None;
            &&& !note ==> refusal(raw, payload) is None
            &&& note && !(payload is Object) ==> refusal(raw, payload) == Some(
                NormalizeError::NotAnObject,
            )
            &&& note && payload is Object && blank ==> refusal(raw, payload) == Some(
                NormalizeError::MissingSummary,
            )
            &&& note && payload is Object && !blank ==> refusal(raw, payload) is None
        }),
{
    law_what_aliases_stand_for(raw);
    reveal_strlit("save_behavior");
    reveal_strlit("save_semantic");
    reveal_strlit("record_system_feedback");
    reveal_strlit("record_research_plan");
    assert("save_behavior"@[5] != "save_semantic"@[5]);
    assert("save_semantic"@.len() < "record_research_plan"@.len());
    assert("save_semantic"@.len() < "record_system_feedback"@.len());
}

/// A summary that was given stays, and so does a scope; a missing summary is made of
/// the objective, or else of the verdict, or else of the statement; the scope of a
/// research plan that has none is that of a plan. Every other member stays.
pub proof fn law_how_a_note_is_completed(raw: Seq<char>, payload: Json, out: Json, key: Seq<char>)
    requires
        completes(raw, payload, out),
    ensures
        out is Object,
        key != "scope"@ && key != "summary"@ ==> out.spec_get(key) == payload.spec_get(key),
        payload.spec_get("summary"@) is Some ==> out.spec_get("summary"@) == payload.spec_get(
            "summary"@,
        ),
        payload.spec_get("scope"@) is Some ==> out.spec_get("scope"@) == payload.spec_get(
            "scope"@,
        ),
        payload.spec_get("scope"@) is None && raw == "record_research_plan"@ ==> out.text_at(
            "scope"@,
        ) == Some("plan"@),
        payload.spec_get("scope"@) is None && raw != "record_research_plan"@ ==> out.spec_get(
            "scope"@,
        ) is None,
        payload.spec_get("summary"@) is None && payload.text_at("objective"@) is Some
            ==> out.text_at("summary"@) == Some(summary_of(payload.text_at("objective"@)->0)),
        payload.spec_get("summary"@) is None && payload.text_at("objective"@) is None
            && payload.text_at("verdict"@) is Some ==> out.text_at("summary"@) == Some(
            summary_of(payload.text_at("verdict"@)->0),
        ),
        payload.spec_get("summary"@) is None && payload.text_at("objective"@) is None
            && payload.text_at("verdict"@) is None ==> payload.text_at("statement"@) is Some
            && out.text_at("summary"@) == Some(summary_of(payload.text_at("statement"@)->0)),
{
    law_what_aliases_stand_for(raw);
}

} // verus!
