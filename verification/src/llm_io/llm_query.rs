//! Which errors are worth another try, and how long to wait before it.

use vstd::prelude::*;

use crate::text::{contains_str, lowercase, occurs, push_decimal, show_i64, to_lower, views};
use crate::text::{decimal, decimal_int};

verus! {

/// `anyhow::Error`: an error with a chain of causes.
#[verifier::external_type_specification]
#[verifier::external_body]
pub struct ExError(anyhow::Error);

/// Calls `anyhow::Error::chain` and writes out each error of it, the outermost
/// first, and claims that there is at least one. What the texts say is left open: it
/// is up to the `Display` of whatever errors the chain holds.
#[verifier::external_body]
fn chain_texts(err: &anyhow::Error) -> (r: Vec<String>)
    ensures
        r@.len() > 0,
{
    err.chain().map(|c| c.to_string()).collect()
}

/// What only a passing trouble says.
pub open spec fn passing_marks() -> Seq<Seq<char>> {
    seq![
        "timeout"@,
        "timed out"@,
        "broken pipe"@,
        "connection reset"@,
        "connection refused"@,
        "i/o"@,
        "io error"@,
        "eof"@,
        "stream"@,
        "subprocess"@,
        "exit status"@,
        "killed"@,
        "signal"@,
    ]
}

/// What says that another try is in vain.
pub open spec fn fatal_marks() -> Seq<Seq<char>> {
    seq![
        "auth"@,
        "authentication"@,
        "unauthorized"@,
        "forbidden"@,
        "permission denied"@,
        "model not found"@,
        "invalid model"@,
        "not found"@,
        "bad request"@,
    ]
}

/// Whether any of the marks occurs in the text.
pub open spec fn marked(text: Seq<char>, marks: Seq<Seq<char>>) -> bool {
    exists|i: int| 0 <= i < marks.len() && occurs(text, #[trigger] marks[i])
}

/// Whether a message in small letters tells of a passing trouble. What is fatal
/// counts before what is passing.
pub open spec fn passing(lowered: Seq<char>) -> bool {
    !marked(lowered, fatal_marks()) && marked(lowered, passing_marks())
}

/// Whether any of the marks occurs in the text.
fn any_mark(text: &str, marks: &[&'static str]) -> (r: bool)
    ensures
        r == marked(text@, crate::agents::str_views(marks@)),
{
    let ghost all = crate::agents::str_views(marks@);
    let mut i: usize = 0;
    while i < marks.len()
        invariant
            i <= marks@.len(),
            all == crate::agents::str_views(marks@),
            forall|j: int| 0 <= j < i ==> !occurs(text@, #[trigger] all[j]),
        decreases marks.len() - i,
    {
        if contains_str(text, marks[i]) {
            proof {
                assert(occurs(text@, all[i as int]));
            }
            return true;
        }
        proof {
            assert(all[i as int] == marks@[i as int]@);
        }
        i += 1;
    }
    false
}

/// Whether a message in small letters tells of a passing trouble.
pub fn is_transient_lowered(lowered: &str) -> (r: bool)
    ensures
        r == passing(lowered@),
{
    let fatal: [&'static str; 9] = [
        "auth",
        "authentication",
        "unauthorized",
        "forbidden",
        "permission denied",
        "model not found",
        "invalid model",
        "not found",
        "bad request",
    ];
    let transient: [&'static str; 13] = [
        "timeout",
        "timed out",
        "broken pipe",
        "connection reset",
        "connection refused",
        "i/o",
        "io error",
        "eof",
        "stream",
        "subprocess",
        "exit status",
        "killed",
        "signal",
    ];
    proof {
        assert(crate::agents::str_views(fatal@) =~= fatal_marks());
        assert(crate::agents::str_views(transient@) =~= passing_marks());
    }
    if any_mark(lowered, fatal.as_slice()) {
        return false;
    }
    any_mark(lowered, transient.as_slice())
}

/// Whether an error is worth another try, by its message. Case does not matter.
pub fn is_transient_error(err: &str) -> (r: bool)
    ensures
        r == passing(lowercase(err@)),
{
    is_transient_lowered(to_lower(err).as_str())
}

/// Whether any of the messages is worth another try.
pub open spec fn any_passing(texts: Seq<Seq<char>>) -> bool {
    exists|i: int| 0 <= i < texts.len() && passing(lowercase(#[trigger] texts[i]))
}

/// Whether any of the messages is worth another try.
pub fn is_transient_chain(texts: &Vec<String>) -> (r: bool)
    ensures
        r == any_passing(views(texts@)),
{
    let ghost all = views(texts@);
    let mut i: usize = 0;
    while i < texts.len()
        invariant
            i <= texts@.len(),
            all == views(texts@),
            forall|j: int| 0 <= j < i ==> !passing(lowercase(#[trigger] all[j])),
        decreases texts.len() - i,
    {
        if is_transient_error(texts[i].as_str()) {
            proof {
                assert(passing(lowercase(all[i as int])));
            }
            return true;
        }
        proof {
            assert(all[i as int] == texts@[i as int]@);
        }
        i += 1;
    }
    false
}

/// Whether an error is worth another try: it is where any cause of it is. The answer
/// is that of [`is_transient_chain`] on the texts that the error and its causes gave
/// of themselves.
pub fn is_transient_anyhow(err: &anyhow::Error) -> (r: bool)
    ensures
        exists|texts: Seq<Seq<char>>| texts.len() > 0 && r == #[trigger] any_passing(texts),
{
    let texts = chain_texts(err);
    let r = is_transient_chain(&texts);
    proof {
        assert(views(texts@).len() > 0);
    }
    r
}

/// A fatal mark anywhere makes an error fatal, whatever else it says.
pub proof fn law_fatal_wins(lowered: Seq<char>)
    requires
        marked(lowered, fatal_marks()),
    ensures
        !passing(lowered),
{
}

/// One passing cause is enough to make a chain worth another try.
pub proof fn law_cause_is_enough(texts: Seq<Seq<char>>, i: int)
    requires
        0 <= i < texts.len(),
        passing(lowercase(texts[i])),
    ensures
        any_passing(texts),
{
}

// -------------------------------------------------------------------- jitter

/// Scatters a seed and an attempt over all numbers.
pub open spec fn scattered(seed: u64, attempt: u64) -> u64 {
    let x = seed.wrapping_mul(0x9E3779B97F4A7C15).wrapping_add(attempt);
    let y = (x ^ (x >> 30)).wrapping_mul(0xBF58476D1CE4E5B9);
    let z = (y ^ (y >> 27)).wrapping_mul(0x94D049BB133111EB);
    z ^ (z >> 31)
}

/// A number below `max` that depends on the seed and the attempt alone.
pub fn jitter(seed: u64, attempt: u64, max: u64) -> (r: u64)
    requires
        max > 0,
    ensures
        r == scattered(seed, attempt) % max,
        r < max,
{
    let mut x: u64 = seed.wrapping_mul(0x9E3779B97F4A7C15).wrapping_add(attempt);
    x = (x ^ (x >> 30)).wrapping_mul(0xBF58476D1CE4E5B9);
    x = (x ^ (x >> 27)).wrapping_mul(0x94D049BB133111EB);
    x = x ^ (x >> 31);
    x % max
}

/// How long to wait before a retry, before jitter, in milliseconds.
pub const BASE_BACKOFF_MS: [u64; 3] = [0, 1000, 3000];

// --------------------------------------------------------------------- trace

/// The name of the file that keeps the prompt of an attempt.
pub fn trace_file_name(run_id: &str, step: i64, attempt: u32) -> (r: String)
    ensures
        r@ == run_id@ + "_step"@ + decimal_int(step as int) + "_attempt"@ + decimal(attempt as nat)
            + ".md"@,
{
    let mut s = run_id.to_owned();
    s.append("_step");
    s.append(show_i64(step).as_str());
    s.append("_attempt");
    push_decimal(&mut s, attempt as u64);
    s.append(".md");
    s
}

/// Which words make an error fatal, and which make one that is not fatal worth another
/// try: a message in small letters that holds a fatal one is not tried again; of the
/// others exactly those are that hold a passing one.
pub proof fn law_which_words_count(t: Seq<char>)
    ensures
        ({
            let fatal = occurs(t, "auth"@) || occurs(t, "authentication"@) || occurs(
                t,
                "unauthorized"@,
            ) || occurs(t, "forbidden"@) || occurs(t, "permission denied"@) || occurs(
                t,
                "model not found"@,
            ) || occurs(t, "invalid model"@) || occurs(t, "not found"@) || occurs(
                t,
                "bad request"@,
            );
            let will_pass = occurs(t, "timeout"@) || occurs(t, "timed out"@) || occurs(
                t,
                "broken pipe"@,
            ) || occurs(t, "connection reset"@) || occurs(t, "connection refused"@) || occurs(
                t,
                "i/o"@,
            ) || occurs(t, "io error"@) || occurs(t, "eof"@) || occurs(t, "stream"@) || occurs(
                t,
                "subprocess"@,
            ) || occurs(t, "exit status"@) || occurs(t, "killed"@) || occurs(t, "signal"@);
            passing(t) <==> will_pass && !fatal
        }),
{
    let f = fatal_marks();
    let p = passing_marks();
    if occurs(t, "auth"@) { assert(occurs(t, f[0])); }
    if occurs(t, "authentication"@) { assert(occurs(t, f[1])); }
    if occurs(t, "unauthorized"@) { assert(occurs(t, f[2])); }
    if occurs(t, "forbidden"@) { assert(occurs(t, f[3])); }
    if occurs(t, "permission denied"@) { assert(occurs(t, f[4])); }
    if occurs(t, "model not found"@) { assert(occurs(t, f[5])); }
    if occurs(t, "invalid model"@) { assert(occurs(t, f[6])); }
    if occurs(t, "not found"@) { assert(occurs(t, f[7])); }
    if occurs(t, "bad request"@) { assert(occurs(t, f[8])); }
    if occurs(t, "timeout"@) { assert(occurs(t, p[0])); }
    if occurs(t, "timed out"@) { assert(occurs(t, p[1])); }
    if occurs(t, "broken pipe"@) { assert(occurs(t, p[2])); }
    if occurs(t, "connection reset"@) { assert(occurs(t, p[3])); }
    if occurs(t, "connection refused"@) { assert(occurs(t, p[4])); }
    if occurs(t, "i/o"@) { assert(occurs(t, p[5])); }
    if occurs(t, "io error"@) { assert(occurs(t, p[6])); }
    if occurs(t, "eof"@) { assert(occurs(t, p[7])); }
    if occurs(t, "stream"@) { assert(occurs(t, p[8])); }
    if occurs(t, "subprocess"@) { assert(occurs(t, p[9])); }
    if occurs(t, "exit status"@) { assert(occurs(t, p[10])); }
    if occurs(t, "killed"@) { assert(occurs(t, p[11])); }
    if occurs(t, "signal"@) { assert(occurs(t, p[12])); }
    if marked(t, f) {
        let i = choose|i: int| 0 <= i < f.len() && occurs(t, #[trigger] f[i]);
        assert(f.len() == 9);
    }
    if marked(t, p) {
        let i = choose|i: int| 0 <= i < p.len() && occurs(t, #[trigger] p[i]);
        assert(p.len() == 13);
    }
}

/// A chain of messages is worth another try exactly where one of them is: the messages of
/// two chains together are where either is.
pub proof fn law_chains_are_judged_message_by_message(
    a: Seq<Seq<char>>,
    b: Seq<Seq<char>>,
    t: Seq<char>,
)
    ensures
        any_passing(a + b) <==> any_passing(a) || any_passing(b),
        any_passing(seq![t]) <==> passing(lowercase(t)),
        !any_passing(Seq::empty()),
{
    if any_passing(a) {
        let i = choose|i: int| 0 <= i < a.len() && passing(lowercase(#[trigger] a[i]));
        assert((a + b)[i] == a[i]);
    }
    if any_passing(b) {
        let i = choose|i: int| 0 <= i < b.len() && passing(lowercase(#[trigger] b[i]));
        assert((a + b)[a.len() + i] == b[i]);
    }
    if any_passing(a + b) {
        let i = choose|i: int|
            0 <= i < (a + b).len() && passing(lowercase(#[trigger] (a + b)[i]));
        if i < a.len() {
            assert(a[i] == (a + b)[i]);
        } else {
            assert(b[i - a.len()] == (a + b)[i]);
        }
    }
    assert(seq![t][0] == t);
}

} // verus!
