//! Which template a task is prompted with, and what is filled into it.

use vstd::prelude::*;

use crate::hypothesis::{
    hyps_view, lists_first, wanted, Hypothesis, HypothesisRepo, HypothesisView, Ordered, Wanted,
};
use crate::json::Json;
use crate::prompts::AgentMode;
use crate::text::{
    byte_len, byte_length, byte_prefix, chars_of, decimal_int, join, joined, match_at, matches_at,
    show_i64, str_eq, take_bytes, views,
};

verus! {

/// A template and the values that are filled into it.
#[derive(Debug)]
pub struct PromptPlan {
    pub mode: AgentMode,
    pub fields: Vec<(String, String)>,
}

/// What a [`PromptPlan`] holds.
#[verifier::ext_equal]
pub struct PlanView {
    pub mode: AgentMode,
    pub fields: Seq<(Seq<char>, Seq<char>)>,
}

/// Names and values of a list of fields.
pub open spec fn pairs(fields: Seq<(String, String)>) -> Seq<(Seq<char>, Seq<char>)> {
    fields.map_values(|f: (String, String)| (f.0@, f.1@))
}

impl View for PromptPlan {
    type V = PlanView;

    open spec fn view(&self) -> PlanView {
        PlanView { mode: self.mode, fields: pairs(self.fields@) }
    }
}

impl PromptPlan {
    /// A template with nothing filled in.
    fn new(mode: AgentMode) -> (r: PromptPlan)
        ensures
            r@ == (PlanView { mode, fields: Seq::empty() }),
    {
        let r = PromptPlan { mode, fields: Vec::new() };
        proof {
            assert(pairs(r.fields@) =~= Seq::<(Seq<char>, Seq<char>)>::empty());
        }
        r
    }

    /// Fills in one more value.
    fn set(&mut self, key: &str, value: &str)
        ensures
            final(self)@ == (PlanView {
                mode: old(self)@.mode,
                fields: old(self)@.fields.push((key@, value@)),
            }),
    {
        let ghost before = self.fields@;
        self.fields.push((key.to_owned(), value.to_owned()));
        proof {
            assert(pairs(self.fields@) =~= pairs(before).push((key@, value@)));
        }
    }
}

/// A plan for `mode` with the goal and the preferences filled in.
fn plan_for(mode: AgentMode, goal: &str, preferences: &str) -> (r: PromptPlan)
    ensures
        r@ == (PlanView { mode, fields: about(goal@, preferences@) }),
{
    let mut r = PromptPlan::new(mode);
    r.set("goal", goal);
    r.set("preferences", preferences);
    proof {
        assert(r@.fields =~= about(goal@, preferences@));
    }
    r
}

/// The fields that every prompt begins with.
pub open spec fn about(goal: Seq<char>, preferences: Seq<char>) -> Seq<(Seq<char>, Seq<char>)> {
    seq![("goal"@, goal), ("preferences"@, preferences)]
}

// ------------------------------------------------------------------ material

/// An experiment as the prompts need it. The metric stands as its text.
#[derive(Debug)]
pub struct ExperimentRow {
    pub id: i64,
    pub hypothesis_id: i64,
    pub status: String,
    pub metric_name: String,
    pub metric_value: Option<String>,
    pub code: String,
    pub error: Option<String>,
    pub exit_code: Option<i64>,
    pub duration_ms: Option<i64>,
    pub stdout: Option<String>,
    pub stderr: Option<String>,
}

/// A review as it was stored.
#[derive(Debug)]
pub struct ReviewRow {
    pub summary: String,
    pub details: Option<String>,
}

/// What stands for a hypothesis whose text was not kept.
pub const NO_HYPOTHESIS_TEXT: &'static str = "(hypothesis text not available)";

/// What stands for a review that was not found.
pub const NO_REVIEW: &'static str = "(no review available)";

/// The text of a hypothesis, given what was stored of it.
pub fn hypothesis_text(stored: Option<String>) -> (r: String)
    ensures
        r@ == (match stored {
            Some(s) => s@,
            None => NO_HYPOTHESIS_TEXT@,
        }),
{
    match stored {
        Some(s) => s,
        None => NO_HYPOTHESIS_TEXT.to_owned(),
    }
}

/// Whether a character is a decimal digit.
pub open spec fn is_digit(c: char) -> bool {
    '0' <= c && c <= '9'
}

/// Whether the whole number `number` stands in `text` at `i`: no further digit
/// stands right before or right behind it.
pub open spec fn number_at(text: Seq<char>, number: Seq<char>, i: int) -> bool {
    &&& matches_at(text, number, i)
    &&& i > 0 ==> !is_digit(text[i - 1])
    &&& i + number.len() < text.len() ==> !is_digit(text[i + number.len()])
}

/// Whether a review speaks of the hypothesis `id`: its details hold that number.
pub open spec fn speaks_of(row: ReviewRow, id: i64) -> bool {
    match row.details {
        Some(d) => exists|i: int| number_at(d@, decimal_int(id as int), i),
        None => false,
    }
}

/// Whether the whole number `number` stands somewhere in `text`.
fn holds_number(text: &str, number: &str) -> (r: bool)
    ensures
        r == exists|i: int| number_at(text@, number@, i),
{
    let t = chars_of(text);
    let w = chars_of(number);
    let n: usize = t.len();
    let k: usize = w.len();
    let mut i: usize = 0;
    while i < n
        invariant
            n == t@.len(),
            k == w@.len(),
            t@ == text@,
            w@ == number@,
            i <= n,
            forall|j: int| 0 <= j < i ==> !#[trigger] number_at(text@, number@, j),
        decreases n - i,
    {
        if match_at(&t, &w, i) {
            let end: usize = i + k;
            let alone_before = i == 0 || !('0' <= t[i - 1] && t[i - 1] <= '9');
            let alone_behind = end >= n || !('0' <= t[end] && t[end] <= '9');
            if alone_before && alone_behind {
                proof {
                    assert(number_at(text@, number@, i as int));
                }
                return true;
            }
        }
        i += 1;
    }
    if k == 0 {
        let bare = n == 0 || !('0' <= t[n - 1] && t[n - 1] <= '9');
        proof {
            assert(text@.subrange(n as int, n as int) =~= number@);
            assert(number_at(text@, number@, n as int) == bare);
            assert forall|j: int| j < 0 || j > n implies !#[trigger] number_at(text@, number@, j) by {}
        }
        return bare;
    }
    proof {
        assert forall|j: int| !#[trigger] number_at(text@, number@, j) by {}
    }
    false
}

/// The summary of the first review from `i` on that speaks of `id`.
pub open spec fn review_from(rows: Seq<ReviewRow>, id: i64, i: int) -> Seq<char>
    decreases rows.len() - i,
{
    if i < 0 || i >= rows.len() {
        NO_REVIEW@
    } else if speaks_of(rows[i], id) {
        rows[i].summary@
    } else {
        review_from(rows, id, i + 1)
    }
}

/// The summary of the latest review that speaks of the hypothesis; the reviews
/// stand with the latest first.
pub fn latest_review(rows: &Vec<ReviewRow>, hypothesis_id: i64) -> (r: String)
    ensures
        r@ == review_from(rows@, hypothesis_id, 0),
{
    let number = show_i64(hypothesis_id);
    let mut i: usize = 0;
    while i < rows.len()
        invariant
            i <= rows@.len(),
            number@ == decimal_int(hypothesis_id as int),
            review_from(rows@, hypothesis_id, 0) == review_from(rows@, hypothesis_id, i as int),
        decreases rows.len() - i,
    {
        if let Some(d) = &rows[i].details {
            if holds_number(d.as_str(), number.as_str()) {
                return rows[i].summary.as_str().to_owned();
            }
        }
        i += 1;
    }
    NO_REVIEW.to_owned()
}

/// How many bytes of an experiment's output a prompt shows.
pub const OUTPUT_LIMIT: usize = 2000;

/// An experiment's output as a prompt shows it: cut where it is too long.
pub open spec fn shown_output(out: Option<String>) -> Seq<char> {
    match out {
        Some(s) => if byte_len(s@) > OUTPUT_LIMIT {
            byte_prefix(s@, OUTPUT_LIMIT as nat) + "…(truncated)"@
        } else {
            s@
        },
        None => "(empty)"@,
    }
}

/// An experiment's output as a prompt shows it: cut where it is too long.
pub fn show_output(out: &Option<String>) -> (r: String)
    ensures
        r@ == shown_output(*out),
{
    match out {
        Some(s) => if byte_length(s.as_str()) > OUTPUT_LIMIT {
            let mut r = take_bytes(s.as_str(), OUTPUT_LIMIT);
            r.append("…(truncated)");
            r
        } else {
            s.as_str().to_owned()
        },
        None => "(empty)".to_owned(),
    }
}

/// A number, or `null` without one.
pub open spec fn number_or_null(n: Option<i64>) -> Seq<char> {
    match n {
        Some(k) => decimal_int(k as int),
        None => "null"@,
    }
}

fn show_or_null(n: Option<i64>) -> (r: String)
    ensures
        r@ == number_or_null(n),
{
    match n {
        Some(k) => show_i64(k),
        None => "null".to_owned(),
    }
}

/// A text, or another one without it.
pub open spec fn text_or(s: Option<String>, other: Seq<char>) -> Seq<char> {
    match s {
        Some(t) => t@,
        None => other,
    }
}

fn shown_text(s: &Option<String>, other: &str) -> (r: String)
    ensures
        r@ == text_or(*s, other@),
{
    match s {
        Some(t) => t.as_str().to_owned(),
        None => other.to_owned(),
    }
}

// --------------------------------------------------------------------- plans

/// The prompt for a review of one hypothesis.
pub open spec fn review_view(
    goal: Seq<char>,
    preferences: Seq<char>,
    hypothesis_id: i64,
    text: Seq<char>,
) -> PlanView {
    PlanView {
        mode: AgentMode::ReflectionReview,
        fields: about(goal, preferences) + seq![
            ("hypothesis_id"@, decimal_int(hypothesis_id as int)),
            ("hypothesis_text"@, text),
            ("articles_block"@, "(no literature retrieved)"@),
        ],
    }
}

/// The prompt for a review of one hypothesis.
pub fn review_plan(goal: &str, preferences: &str, hypothesis_id: i64, text: &str) -> (r: PromptPlan)
    ensures
        r@ == review_view(goal@, preferences@, hypothesis_id, text@),
{
    let mut r = plan_for(AgentMode::ReflectionReview, goal, preferences);
    r.set("hypothesis_id", show_i64(hypothesis_id).as_str());
    r.set("hypothesis_text", text);
    r.set("articles_block", "(no literature retrieved)");
    r
}

/// The prompt for a second look at a hypothesis after its experiment. `result`
/// is the latest verdict on an experiment: its summary and its details.
pub open spec fn reflection_on_result_view(
    goal: Seq<char>,
    preferences: Seq<char>,
    hypothesis_id: i64,
    text: Seq<char>,
    exp: ExperimentRow,
    prior_review: Seq<char>,
    result: Option<(String, String)>,
) -> PlanView {
    PlanView {
        mode: AgentMode::ReflectionOnResult,
        fields: about(goal, preferences) + seq![
            ("hypothesis_id"@, decimal_int(hypothesis_id as int)),
            ("hypothesis_text"@, text),
            ("experiment_id"@, decimal_int(exp.id as int)),
            ("metric_name"@, exp.metric_name@),
            ("metric_value"@, text_or(exp.metric_value, "null"@)),
            ("verdict"@, "(see result_summary)"@),
            (
                "result_summary"@,
                match result {
                    Some(v) => v.0@,
                    None => "(no evaluate_result recorded)"@,
                },
            ),
            (
                "result_details"@,
                match result {
                    Some(v) => v.1@,
                    None => "{}"@,
                },
            ),
            ("prior_review"@, prior_review),
        ],
    }
}

/// The prompt for a second look at a hypothesis after its experiment. `result`
/// is the latest verdict on an experiment: its summary and its details.
pub fn reflection_on_result_plan(
    goal: &str,
    preferences: &str,
    hypothesis_id: i64,
    text: &str,
    exp: &ExperimentRow,
    prior_review: &str,
    result: &Option<(String, String)>,
) -> (r: PromptPlan)
    ensures
        r@ == reflection_on_result_view(goal@, preferences@, hypothesis_id, text@, *exp, prior_review@, *result),
{
    let mut r = plan_for(AgentMode::ReflectionOnResult, goal, preferences);
    r.set("hypothesis_id", show_i64(hypothesis_id).as_str());
    r.set("hypothesis_text", text);
    r.set("experiment_id", show_i64(exp.id).as_str());
    r.set("metric_name", exp.metric_name.as_str());
    r.set("metric_value", shown_text(&exp.metric_value, "null").as_str());
    r.set("verdict", "(see result_summary)");
    match result {
        Some(v) => {
            r.set("result_summary", v.0.as_str());
            r.set("result_details", v.1.as_str());
        },
        None => {
            r.set("result_summary", "(no evaluate_result recorded)");
            r.set("result_details", "{}");
        },
    }
    r.set("prior_review", prior_review);
    r
}

/// A hypothesis as the prompts that set two side by side show it.
#[derive(Debug)]
pub struct Contender {
    pub id: i64,
    pub text: String,
    pub review: String,
}

/// The prompt that lets two hypotheses compete.
pub open spec fn pairwise_view(
    goal: Seq<char>,
    preferences: Seq<char>,
    a: Contender,
    b: Contender,
) -> PlanView {
    PlanView {
        mode: AgentMode::RankingPairwise,
        fields: about(goal, preferences) + seq![
            ("hypothesis_1_id"@, decimal_int(a.id as int)),
            ("hypothesis_1"@, a.text@),
            ("hypothesis_2_id"@, decimal_int(b.id as int)),
            ("hypothesis_2"@, b.text@),
            ("review_1"@, a.review@),
            ("review_2"@, b.review@),
            ("notes"@, ""@),
        ],
    }
}

/// The prompt that lets two hypotheses compete.
pub fn pairwise_plan(goal: &str, preferences: &str, a: &Contender, b: &Contender) -> (r: PromptPlan)
    ensures
        r@ == pairwise_view(goal@, preferences@, *a, *b),
{
    let mut r = plan_for(AgentMode::RankingPairwise, goal, preferences);
    r.set("hypothesis_1_id", show_i64(a.id).as_str());
    r.set("hypothesis_1", a.text.as_str());
    r.set("hypothesis_2_id", show_i64(b.id).as_str());
    r.set("hypothesis_2", b.text.as_str());
    r.set("review_1", a.review.as_str());
    r.set("review_2", b.review.as_str());
    r.set("notes", "");
    r
}

/// The prompt that combines two hypotheses.
pub open spec fn evolution_view(
    goal: Seq<char>,
    preferences: Seq<char>,
    a: Contender,
    b: Contender,
) -> PlanView {
    PlanView {
        mode: AgentMode::EvolutionCombine,
        fields: about(goal, preferences) + seq![
            ("hypothesis_a_id"@, decimal_int(a.id as int)),
            ("hypothesis_a"@, a.text@),
            ("hypothesis_b_id"@, decimal_int(b.id as int)),
            ("hypothesis_b"@, b.text@),
            ("review_a"@, a.review@),
            ("review_b"@, b.review@),
        ],
    }
}

/// The prompt that combines two hypotheses.
pub fn evolution_plan(goal: &str, preferences: &str, a: &Contender, b: &Contender) -> (r: PromptPlan)
    ensures
        r@ == evolution_view(goal@, preferences@, *a, *b),
{
    let mut r = plan_for(AgentMode::EvolutionCombine, goal, preferences);
    r.set("hypothesis_a_id", show_i64(a.id).as_str());
    r.set("hypothesis_a", a.text.as_str());
    r.set("hypothesis_b_id", show_i64(b.id).as_str());
    r.set("hypothesis_b", b.text.as_str());
    r.set("review_a", a.review.as_str());
    r.set("review_b", b.review.as_str());
    r
}

/// What a generation prompt offers in place of literature: feedback on the
/// system, as far as it is not empty.
pub open spec fn articles(feedback: Seq<Seq<char>>) -> Seq<char> {
    let text = joined(feedback, "\n---\n"@);
    "(no external literature available; use your training knowledge)\n\n"@ + if text.len() == 0 {
        ""@
    } else {
        "## System Feedback\n"@ + text
    }
}

/// The prompt that asks for new hypotheses.
pub open spec fn generation_view(
    goal: Seq<char>,
    preferences: Seq<char>,
    feedback: Seq<Seq<char>>,
) -> PlanView {
    PlanView {
        mode: AgentMode::GenerationLiterature,
        fields: about(goal, preferences) + seq![
            ("articles_with_reasoning"@, articles(feedback)),
            ("source_hypothesis"@, ""@),
            ("instructions"@, ""@),
        ],
    }
}

/// The prompt that asks for new hypotheses.
pub fn generation_plan(goal: &str, preferences: &str, feedback: &Vec<String>) -> (r: PromptPlan)
    ensures
        r@ == generation_view(goal@, preferences@, views(feedback@)),
{
    let text = join(feedback, "\n---\n");
    let mut offered: String =
        "(no external literature available; use your training knowledge)\n\n".to_owned();
    if text.as_str().is_empty() {
        offered.append("");
    } else {
        let mut block: String = "## System Feedback\n".to_owned();
        block.append(text.as_str());
        offered.append(block.as_str());
    }
    let mut r = plan_for(AgentMode::GenerationLiterature, goal, preferences);
    r.set("articles_with_reasoning", offered.as_str());
    r.set("source_hypothesis", "");
    r.set("instructions", "");
    r
}

/// The prompt that sums up the tournament.
pub open spec fn metareview_view(
    goal: Seq<char>,
    preferences: Seq<char>,
    rationales: Seq<Seq<char>>,
) -> PlanView {
    PlanView {
        mode: AgentMode::MetaReviewSystem,
        fields: about(goal, preferences) + seq![
            (
                "reviews_overview"@,
                if rationales.len() == 0 {
                    "(no tournament data yet)"@
                } else {
                    joined(rationales, "\n---\n"@)
                },
            ),
            ("transcript"@, ""@),
        ],
    }
}

/// The prompt that sums up the tournament.
pub fn metareview_plan(goal: &str, preferences: &str, rationales: &Vec<String>) -> (r: PromptPlan)
    ensures
        r@ == metareview_view(goal@, preferences@, views(rationales@)),
{
    let overview = if rationales.len() == 0 {
        "(no tournament data yet)".to_owned()
    } else {
        join(rationales, "\n---\n")
    };
    let mut r = plan_for(AgentMode::MetaReviewSystem, goal, preferences);
    r.set("reviews_overview", overview.as_str());
    r.set("transcript", "");
    r
}

/// The prompt that asks for an experiment on a hypothesis.
pub open spec fn experiment_design_view(
    goal: Seq<char>,
    preferences: Seq<char>,
    hypothesis_id: i64,
    text: Seq<char>,
) -> PlanView {
    PlanView {
        mode: AgentMode::ExperimentDesign,
        fields: about(goal, preferences) + seq![
            ("hypothesis_id"@, decimal_int(hypothesis_id as int)),
            ("hypothesis_text"@, text),
        ],
    }
}

/// The prompt that asks for an experiment on a hypothesis.
pub fn experiment_design_plan(goal: &str, preferences: &str, hypothesis_id: i64, text: &str) -> (r: PromptPlan)
    ensures
        r@ == experiment_design_view(goal@, preferences@, hypothesis_id, text@),
{
    let mut r = plan_for(AgentMode::ExperimentDesign, goal, preferences);
    r.set("hypothesis_id", show_i64(hypothesis_id).as_str());
    r.set("hypothesis_text", text);
    r
}

/// The prompt that runs an experiment.
pub open spec fn experiment_execute_view(
    goal: Seq<char>,
    preferences: Seq<char>,
    exp: ExperimentRow,
) -> PlanView {
    PlanView {
        mode: AgentMode::ExperimentExecute,
        fields: about(goal, preferences) + seq![
            ("experiment_id"@, decimal_int(exp.id as int)),
            ("metric_name"@, exp.metric_name@),
            ("code"@, exp.code@),
            ("description"@, text_or(exp.error, ""@)),
        ],
    }
}

/// The prompt that runs an experiment.
pub fn experiment_execute_plan(goal: &str, preferences: &str, exp: &ExperimentRow) -> (r: PromptPlan)
    ensures
        r@ == experiment_execute_view(goal@, preferences@, *exp),
{
    let mut r = plan_for(AgentMode::ExperimentExecute, goal, preferences);
    r.set("experiment_id", show_i64(exp.id).as_str());
    r.set("metric_name", exp.metric_name.as_str());
    r.set("code", exp.code.as_str());
    r.set("description", shown_text(&exp.error, "").as_str());
    r
}

/// The prompt that judges an experiment by what it put out.
pub open spec fn experiment_evaluate_view(
    goal: Seq<char>,
    preferences: Seq<char>,
    exp: ExperimentRow,
    text: Seq<char>,
) -> PlanView {
    PlanView {
        mode: AgentMode::ExperimentEvaluate,
        fields: about(goal, preferences) + seq![
            ("experiment_id"@, decimal_int(exp.id as int)),
            ("hypothesis_id"@, decimal_int(exp.hypothesis_id as int)),
            ("hypothesis_text"@, text),
            ("status"@, exp.status@),
            ("metric_name"@, exp.metric_name@),
            ("metric_value"@, text_or(exp.metric_value, "null"@)),
            ("exit_code"@, number_or_null(exp.exit_code)),
            ("duration_ms"@, number_or_null(exp.duration_ms)),
            ("stdout"@, shown_output(exp.stdout)),
            ("stderr"@, shown_output(exp.stderr)),
        ],
    }
}

/// The prompt that judges an experiment by what it put out.
pub fn experiment_evaluate_plan(goal: &str, preferences: &str, exp: &ExperimentRow, text: &str) -> (r: PromptPlan)
    ensures
        r@ == experiment_evaluate_view(goal@, preferences@, *exp, text@),
{
    let mut r = plan_for(AgentMode::ExperimentEvaluate, goal, preferences);
    r.set("experiment_id", show_i64(exp.id).as_str());
    r.set("hypothesis_id", show_i64(exp.hypothesis_id).as_str());
    r.set("hypothesis_text", text);
    r.set("status", exp.status.as_str());
    r.set("metric_name", exp.metric_name.as_str());
    r.set("metric_value", shown_text(&exp.metric_value, "null").as_str());
    r.set("exit_code", show_or_null(exp.exit_code).as_str());
    r.set("duration_ms", show_or_null(exp.duration_ms).as_str());
    r.set("stdout", show_output(&exp.stdout).as_str());
    r.set("stderr", show_output(&exp.stderr).as_str());
    r
}

/// The prompt for an experiment task whose mode is none of the three stages.
pub open spec fn experiment_other_view(
    goal: Seq<char>,
    preferences: Seq<char>,
) -> PlanView {
    PlanView {
        mode: AgentMode::ExperimentDesign,
        fields: about(goal, preferences) + seq![
            ("hypothesis_id"@, "0"@),
            ("hypothesis_text"@, "(no hypothesis context)"@),
        ],
    }
}

/// The prompt for an experiment task whose mode is none of the three stages.
pub fn experiment_other_plan(goal: &str, preferences: &str) -> (r: PromptPlan)
    ensures
        r@ == experiment_other_view(goal@, preferences@),
{
    let mut r = plan_for(AgentMode::ExperimentDesign, goal, preferences);
    r.set("hypothesis_id", "0");
    r.set("hypothesis_text", "(no hypothesis context)");
    r
}

/// An optional number as `Some(n)` or `None`.
pub open spec fn option_text(n: Option<i64>) -> Seq<char> {
    match n {
        Some(k) => "Some("@ + decimal_int(k as int) + ")"@,
        None => "None"@,
    }
}

fn push_option(out: &mut String, n: Option<i64>)
    ensures
        final(out)@ == old(out)@ + option_text(n),
{
    let ghost before = out@;
    match n {
        Some(k) => {
            out.append("Some(");
            out.append(show_i64(k).as_str());
            out.append(")");
            proof {
                assert(out@ =~= before + option_text(n));
            }
        },
        None => {
            out.append("None");
        },
    }
}

/// What an experiment task is prompted with where its template cannot be filled
/// in, so that the task is not lost.
pub fn experiment_fallback(goal: &str, experiment_id: Option<i64>, hypothesis_id: Option<i64>) -> (r:
    String)
    ensures
        r@
            == "Run experiment_design / experiment_execute / experiment_evaluate as the mode suggests. Goal: "@
            + goal@ + ". experiment_id: "@ + option_text(experiment_id) + ", hypothesis_id: "@
            + option_text(hypothesis_id) + "."@,
{
    let mut out: String =
        "Run experiment_design / experiment_execute / experiment_evaluate as the mode suggests. Goal: ".to_owned();
    out.append(goal);
    out.append(". experiment_id: ");
    push_option(&mut out, experiment_id);
    out.append(", hypothesis_id: ");
    push_option(&mut out, hypothesis_id);
    out.append(".");
    out
}

// --------------------------------------------------------------------- needs

/// What has to be fetched before a task's prompt can be built.
#[derive(Debug)]
pub enum PromptNeed {
    /// The text of the hypothesis.
    Review { hypothesis_id: i64 },
    /// The text of the hypothesis, the experiment, the latest review and the
    /// latest verdict.
    ReflectionOnResult { hypothesis_id: i64, experiment_id: i64 },
    /// Two hypotheses that need matches.
    Pairwise,
    /// The two hypotheses at the top.
    Evolution,
    /// Feedback on the system.
    Generation,
    /// The rationales of the last matches.
    MetaReview,
    /// The text of the hypothesis.
    ExperimentDesign { hypothesis_id: i64 },
    /// The experiment.
    ExperimentExecute { experiment: Option<i64> },
    /// The experiment, and the text of its hypothesis.
    ExperimentEvaluate { experiment: Option<i64> },
    /// Nothing: an experiment task whose mode is none of the three stages.
    ExperimentOther,
    /// Nothing: the prompt stays empty.
    Nothing,
}

/// Something that a prompt cannot be built without.
#[derive(Clone, Copy, Debug, PartialEq, Eq, Structural)]
pub enum PromptError {
    ReflectionHypothesis,
    ReflectionExperiment,
    DesignHypothesis,
    ExecuteExperiment,
    EvaluateExperiment,
    UnknownHypothesis(i64),
    UnknownExperiment(i64),
}

impl PromptError {
    /// The failure in words.
    pub open spec fn spec_message(self) -> Seq<char> {
        match self {
            PromptError::ReflectionHypothesis => "reflection needs hypothesis_id"@,
            PromptError::ReflectionExperiment => "reflection_on_result needs experiment_id"@,
            PromptError::DesignHypothesis => "experiment_design needs hypothesis_id"@,
            PromptError::ExecuteExperiment => "experiment_execute needs a valid experiment_id"@,
            PromptError::EvaluateExperiment => "experiment_evaluate needs a valid experiment_id"@,
            PromptError::UnknownHypothesis(id) => "hypothesis "@ + decimal_int(id as int)
                + " not found"@,
            PromptError::UnknownExperiment(id) => "reflection_on_result: experiment "@
                + decimal_int(id as int) + " not found"@,
        }
    }

    /// The failure in words.
    pub fn message(self) -> (r: String)
        ensures
            r@ == self.spec_message(),
    {
        match self {
            PromptError::ReflectionHypothesis => "reflection needs hypothesis_id".to_owned(),
            PromptError::ReflectionExperiment => "reflection_on_result needs experiment_id".to_owned(),
            PromptError::DesignHypothesis => "experiment_design needs hypothesis_id".to_owned(),
            PromptError::ExecuteExperiment => "experiment_execute needs a valid experiment_id".to_owned(),
            PromptError::EvaluateExperiment => "experiment_evaluate needs a valid experiment_id".to_owned(),
            PromptError::UnknownHypothesis(id) => {
                let mut r: String = "hypothesis ".to_owned();
                r.append(show_i64(id).as_str());
                r.append(" not found");
                r
            },
            PromptError::UnknownExperiment(id) => {
                let mut r: String = "reflection_on_result: experiment ".to_owned();
                r.append(show_i64(id).as_str());
                r.append(" not found");
                r
            },
        }
    }
}

/// The mode that a task names; empty without one.
pub open spec fn mode_of(args: Json) -> Seq<char> {
    match args.text_at("mode"@) {
        Some(s) => s,
        None => ""@,
    }
}

/// The mode that a task names; empty without one.
pub fn task_mode(args: &Json) -> (r: String)
    ensures
        r@ == mode_of(*args),
{
    match args.str_at("mode") {
        Some(s) => s,
        None => "".to_owned(),
    }
}

/// What a task of the agent `agent` with the arguments `args` needs.
pub open spec fn need_of(agent: Seq<char>, args: Json) -> Result<PromptNeed, PromptError> {
    let mode = mode_of(args);
    let hypothesis = args.integer_at("hypothesis_id"@);
    let experiment = args.integer_at("experiment_id"@);
    if agent == "reflection"@ {
        match hypothesis {
            None => Err(PromptError::ReflectionHypothesis),
            Some(hypothesis_id) => if mode == "reflection_on_result"@ {
                match experiment {
                    None => Err(PromptError::ReflectionExperiment),
                    Some(experiment_id) => Ok(
                        PromptNeed::ReflectionOnResult { hypothesis_id, experiment_id },
                    ),
                }
            } else {
                Ok(PromptNeed::Review { hypothesis_id })
            },
        }
    } else if agent == "ranking"@ {
        Ok(PromptNeed::Pairwise)
    } else if agent == "evolution"@ {
        Ok(PromptNeed::Evolution)
    } else if agent == "generation"@ {
        Ok(PromptNeed::Generation)
    } else if agent == "metareview"@ {
        Ok(PromptNeed::MetaReview)
    } else if agent == "experiment"@ {
        if mode == "experiment_design"@ {
            match hypothesis {
                None => Err(PromptError::DesignHypothesis),
                Some(hypothesis_id) => Ok(PromptNeed::ExperimentDesign { hypothesis_id }),
            }
        } else if mode == "experiment_execute"@ {
            Ok(PromptNeed::ExperimentExecute { experiment })
        } else if mode == "experiment_evaluate"@ {
            Ok(PromptNeed::ExperimentEvaluate { experiment })
        } else {
            Ok(PromptNeed::ExperimentOther)
        }
    } else {
        Ok(PromptNeed::Nothing)
    }
}

/// What a task of the agent `agent` with the arguments `args` needs before its
/// prompt can be built.
pub fn prompt_need(agent: &str, args: &Json) -> (r: Result<PromptNeed, PromptError>)
    ensures
        r == need_of(agent@, *args),
{
    let mode = task_mode(args);
    let hypothesis = args.i64_at("hypothesis_id");
    let experiment = args.i64_at("experiment_id");
    if str_eq(agent, "reflection") {
        match hypothesis {
            None => Err(PromptError::ReflectionHypothesis),
            Some(hypothesis_id) => if str_eq(mode.as_str(), "reflection_on_result") {
                match experiment {
                    None => Err(PromptError::ReflectionExperiment),
                    Some(experiment_id) => Ok(
                        PromptNeed::ReflectionOnResult { hypothesis_id, experiment_id },
                    ),
                }
            } else {
                Ok(PromptNeed::Review { hypothesis_id })
            },
        }
    } else if str_eq(agent, "ranking") {
        Ok(PromptNeed::Pairwise)
    } else if str_eq(agent, "evolution") {
        Ok(PromptNeed::Evolution)
    } else if str_eq(agent, "generation") {
        Ok(PromptNeed::Generation)
    } else if str_eq(agent, "metareview") {
        Ok(PromptNeed::MetaReview)
    } else if str_eq(agent, "experiment") {
        if str_eq(mode.as_str(), "experiment_design") {
            match hypothesis {
                None => Err(PromptError::DesignHypothesis),
                Some(hypothesis_id) => Ok(PromptNeed::ExperimentDesign { hypothesis_id }),
            }
        } else if str_eq(mode.as_str(), "experiment_execute") {
            Ok(PromptNeed::ExperimentExecute { experiment })
        } else if str_eq(mode.as_str(), "experiment_evaluate") {
            Ok(PromptNeed::ExperimentEvaluate { experiment })
        } else {
            Ok(PromptNeed::ExperimentOther)
        }
    } else {
        Ok(PromptNeed::Nothing)
    }
}

/// The ids of a list of hypotheses.
pub open spec fn ids_of(hyps: Seq<HypothesisView>) -> Seq<i64> {
    hyps.map_values(|h: HypothesisView| h.id)
}

/// How many notes of system feedback a generation prompt shows.
pub const FEEDBACK_SHOWN: usize = 5;

/// How many rationales of matches a prompt for system feedback shows.
pub const RATIONALES_SHOWN: usize = 50;

/// How many of the latest reviews of a session are searched for one that speaks
/// of a hypothesis.
pub const REVIEWS_SEARCHED: usize = 10;

/// Below how many matches a hypothesis is set against another.
pub const MATCHES_WANTED: i64 = 3;

/// Whether `ids` are the hypotheses of the session that a prompt sets side by
/// side, at most two: for a match those with the fewest matches, for evolution
/// those with the highest rating, and none for any other prompt.
pub open spec fn chosen_for(
    need: PromptNeed,
    rows: Seq<HypothesisView>,
    session: Seq<char>,
    ids: Seq<i64>,
) -> bool {
    match need {
        PromptNeed::Pairwise => exists|out: Seq<HypothesisView>| #[trigger]
            lists_first(
                wanted(rows, session, Wanted::Unplayed(MATCHES_WANTED)),
                Ordered::ByMatches,
                2,
                out,
            ) && ids == ids_of(out),
        PromptNeed::Evolution => exists|out: Seq<HypothesisView>| #[trigger]
            lists_first(wanted(rows, session, Wanted::Active), Ordered::ByRating, 2, out) && ids
                == ids_of(out),
        _ => ids.len() == 0,
    }
}

/// The ids of a list of hypotheses.
fn list_ids(hyps: &Vec<Hypothesis>) -> (r: Vec<i64>)
    ensures
        r@ == ids_of(hyps_view(hyps@)),
{
    let mut out: Vec<i64> = Vec::new();
    let mut i: usize = 0;
    while i < hyps.len()
        invariant
            i <= hyps@.len(),
            out@ == ids_of(hyps_view(hyps@)).take(i as int),
        decreases hyps.len() - i,
    {
        out.push(hyps[i].id);
        proof {
            let all = ids_of(hyps_view(hyps@));
            assert(all.take(i + 1) =~= all.take(i as int).push(all[i as int]));
        }
        i += 1;
    }
    proof {
        let all = ids_of(hyps_view(hyps@));
        assert(all.take(all.len() as int) =~= all);
    }
    out
}

/// The hypotheses of the session that a prompt sets side by side.
pub fn contender_ids(need: &PromptNeed, repo: &HypothesisRepo, session_id: &str) -> (r: Vec<i64>)
    ensures
        chosen_for(*need, repo@.rows, session_id@, r@),
{
    match need {
        PromptNeed::Pairwise => list_ids(&repo.needs_matches(session_id, MATCHES_WANTED, 2)),
        PromptNeed::Evolution => list_ids(&repo.top_n(session_id, 2)),
        _ => Vec::new(),
    }
}

/// What was fetched for a prompt.
#[derive(Debug)]
pub struct Material {
    /// The text of the hypothesis that is needed; nothing where there is no such
    /// hypothesis.
    pub hypothesis: Option<String>,
    /// The experiment that is needed, where there is one.
    pub experiment: Option<ExperimentRow>,
    /// The reviews of the session, the latest first.
    pub reviews: Vec<ReviewRow>,
    /// Summary and details of the latest verdict on an experiment.
    pub verdict: Option<(String, String)>,
    /// The hypotheses to set side by side.
    pub contenders: Vec<Contender>,
    /// Feedback on the system, or the rationales of matches.
    pub notes: Vec<String>,
}

/// The prompt that follows from a need and what was fetched for it; nothing
/// where the prompt stays empty.
pub open spec fn plan_of(
    need: PromptNeed,
    goal: Seq<char>,
    preferences: Seq<char>,
    m: Material,
) -> Result<Option<PlanView>, PromptError> {
    match need {
        PromptNeed::Review { hypothesis_id } => match m.hypothesis {
            None => Err(PromptError::UnknownHypothesis(hypothesis_id)),
            Some(text) => Ok(Some(review_view(goal, preferences, hypothesis_id, text@))),
        },
        PromptNeed::ReflectionOnResult { hypothesis_id, experiment_id } => match (
            m.hypothesis,
            m.experiment,
        ) {
            (None, _) => Err(PromptError::UnknownHypothesis(hypothesis_id)),
            (Some(_), None) => Err(PromptError::UnknownExperiment(experiment_id)),
            (Some(text), Some(exp)) => Ok(
                Some(
                    reflection_on_result_view(
                        goal,
                        preferences,
                        hypothesis_id,
                        text@,
                        exp,
                        review_from(m.reviews@, hypothesis_id, 0),
                        m.verdict,
                    ),
                ),
            ),
        },
        PromptNeed::Pairwise => if m.contenders@.len() >= 2 {
            Ok(Some(pairwise_view(goal, preferences, m.contenders@[0], m.contenders@[1])))
        } else {
            Ok(None)
        },
        PromptNeed::Evolution => if m.contenders@.len() >= 2 {
            Ok(Some(evolution_view(goal, preferences, m.contenders@[0], m.contenders@[1])))
        } else {
            Ok(None)
        },
        PromptNeed::Generation => Ok(Some(generation_view(goal, preferences, views(m.notes@)))),
        PromptNeed::MetaReview => Ok(Some(metareview_view(goal, preferences, views(m.notes@)))),
        PromptNeed::ExperimentDesign { hypothesis_id } => match m.hypothesis {
            None => Err(PromptError::UnknownHypothesis(hypothesis_id)),
            Some(text) => Ok(Some(experiment_design_view(goal, preferences, hypothesis_id, text@))),
        },
        PromptNeed::ExperimentExecute { .. } => match m.experiment {
            None => Err(PromptError::ExecuteExperiment),
            Some(exp) => Ok(Some(experiment_execute_view(goal, preferences, exp))),
        },
        PromptNeed::ExperimentEvaluate { .. } => match (m.experiment, m.hypothesis) {
            (None, _) => Err(PromptError::EvaluateExperiment),
            (Some(exp), None) => Err(PromptError::UnknownHypothesis(exp.hypothesis_id)),
            (Some(exp), Some(text)) => Ok(
                Some(experiment_evaluate_view(goal, preferences, exp, text@)),
            ),
        },
        PromptNeed::ExperimentOther => Ok(Some(experiment_other_view(goal, preferences))),
        PromptNeed::Nothing => Ok(None),
    }
}

/// Builds the prompt of a task from what was fetched for it; nothing where the
/// prompt stays empty.
pub fn build_prompt(need: &PromptNeed, goal: &str, preferences: &str, m: &Material) -> (r: Result<
    Option<PromptPlan>,
    PromptError,
>)
    ensures
        match (plan_of(*need, goal@, preferences@, *m), r) {
            (Ok(Some(v)), Ok(Some(p))) => p@ == v,
            (Ok(None), Ok(None)) => true,
            (Err(e), Err(f)) => e == f,
            _ => false,
        },
{
    match need {
        PromptNeed::Review { hypothesis_id } => match &m.hypothesis {
            None => Err(PromptError::UnknownHypothesis(*hypothesis_id)),
            Some(text) => Ok(Some(review_plan(goal, preferences, *hypothesis_id, text.as_str()))),
        },
        PromptNeed::ReflectionOnResult { hypothesis_id, experiment_id } => match &m.hypothesis {
            None => Err(PromptError::UnknownHypothesis(*hypothesis_id)),
            Some(text) => match &m.experiment {
                None => Err(PromptError::UnknownExperiment(*experiment_id)),
                Some(exp) => {
                    let review = latest_review(&m.reviews, *hypothesis_id);
                    Ok(
                        Some(
                            reflection_on_result_plan(
                                goal,
                                preferences,
                                *hypothesis_id,
                                text.as_str(),
                                exp,
                                review.as_str(),
                                &m.verdict,
                            ),
                        ),
                    )
                },
            },
        },
        PromptNeed::Pairwise => if m.contenders.len() >= 2 {
            Ok(Some(pairwise_plan(goal, preferences, &m.contenders[0], &m.contenders[1])))
        } else {
            Ok(None)
        },
        PromptNeed::Evolution => if m.contenders.len() >= 2 {
            Ok(Some(evolution_plan(goal, preferences, &m.contenders[0], &m.contenders[1])))
        } else {
            Ok(None)
        },
        PromptNeed::Generation => Ok(Some(generation_plan(goal, preferences, &m.notes))),
        PromptNeed::MetaReview => Ok(Some(metareview_plan(goal, preferences, &m.notes))),
        PromptNeed::ExperimentDesign { hypothesis_id } => match &m.hypothesis {
            None => Err(PromptError::UnknownHypothesis(*hypothesis_id)),
            Some(text) => Ok(
                Some(experiment_design_plan(goal, preferences, *hypothesis_id, text.as_str())),
            ),
        },
        PromptNeed::ExperimentExecute { .. } => match &m.experiment {
            None => Err(PromptError::ExecuteExperiment),
            Some(exp) => Ok(Some(experiment_execute_plan(goal, preferences, exp))),
        },
        PromptNeed::ExperimentEvaluate { .. } => match &m.experiment {
            None => Err(PromptError::EvaluateExperiment),
            Some(exp) => match &m.hypothesis {
                None => Err(PromptError::UnknownHypothesis(exp.hypothesis_id)),
                Some(text) => Ok(
                    Some(experiment_evaluate_plan(goal, preferences, exp, text.as_str())),
                ),
            },
        },
        PromptNeed::ExperimentOther => Ok(Some(experiment_other_plan(goal, preferences))),
        PromptNeed::Nothing => Ok(None),
    }
}

// ---------------------------------------------------------------------- laws

/// A prompt is only built from a template that belongs to the agent it is for.
pub proof fn law_prompts_stay_with_their_agent(
    agent: Seq<char>,
    args: Json,
    goal: Seq<char>,
    preferences: Seq<char>,
    m: Material,
)
    ensures
        need_of(agent, args) matches Ok(need) ==> (plan_of(need, goal, preferences, m) matches Ok(
            Some(plan),
        ) ==> plan.mode.spec_agent() == agent),
{
}

/// Whatever an experiment put out, a prompt shows at most the limit of it and
/// the note that it was cut.
pub proof fn law_shown_output_is_bounded(out: Option<String>)
    ensures
        byte_len(shown_output(out)) <= OUTPUT_LIMIT + byte_len("…(truncated)"@),
{
    match out {
        Some(s) => {
            if byte_len(s@) > OUTPUT_LIMIT {
                lemma_prefix_fits(s@, OUTPUT_LIMIT as nat);
                crate::text::lemma_byte_len_add(
                    byte_prefix(s@, OUTPUT_LIMIT as nat),
                    "…(truncated)"@,
                );
            }
        },
        None => {
            reveal_strlit("(empty)");
            lemma_byte_len_at_most("(empty)"@);
        },
    }
}

proof fn lemma_prefix_fits(s: Seq<char>, n: nat)
    ensures
        byte_len(byte_prefix(s, n)) <= n,
    decreases s.len(),
{
    if byte_len(s) > n {
        lemma_prefix_fits(s.drop_last(), n);
    }
}

proof fn lemma_byte_len_at_most(s: Seq<char>)
    ensures
        byte_len(s) <= 4 * s.len(),
    decreases s.len(),
{
    if s.len() > 0 {
        lemma_byte_len_at_most(s.drop_last());
    }
}

/// Every prompt that is built tells the goal and the preferences of the session.
pub proof fn law_prompts_tell_goal_and_preferences(
    need: PromptNeed,
    goal: Seq<char>,
    preferences: Seq<char>,
    m: Material,
)
    ensures
        plan_of(need, goal, preferences, m) matches Ok(Some(plan)) ==> plan.fields.len() >= 2
            && plan.fields[0] == ("goal"@, goal) && plan.fields[1] == ("preferences"@, preferences),
{
    match plan_of(need, goal, preferences, m) {
        Ok(Some(plan)) => {
            assert(plan.fields[0] == ("goal"@, goal));
            assert(plan.fields[1] == ("preferences"@, preferences));
        },
        _ => {},
    }
}

/// Whether a value is filled in under a name.
pub open spec fn fills(plan: PlanView, key: Seq<char>, value: Seq<char>) -> bool {
    exists|i: int| 0 <= i < plan.fields.len() && #[trigger] plan.fields[i] == (key, value)
}

/// A match is between the first two contenders, and an evolution of them: each stands in
/// the prompt with its own number, text and review. With fewer than two there is no
/// prompt.
pub proof fn law_two_contenders_stand_side_by_side(
    goal: Seq<char>,
    preferences: Seq<char>,
    m: Material,
)
    ensures
        m.contenders@.len() < 2 ==> plan_of(PromptNeed::Pairwise, goal, preferences, m) == Ok::<
            Option<PlanView>,
            PromptError,
        >(None) && plan_of(PromptNeed::Evolution, goal, preferences, m) == Ok::<
            Option<PlanView>,
            PromptError,
        >(None),
        m.contenders@.len() >= 2 ==> ({
            let a = m.contenders@[0];
            let b = m.contenders@[1];
            &&& plan_of(PromptNeed::Pairwise, goal, preferences, m) matches Ok(Some(p))
                && p.mode == AgentMode::RankingPairwise && fills(
                p,
                "hypothesis_1_id"@,
                decimal_int(a.id as int),
            ) && fills(p, "hypothesis_1"@, a.text@) && fills(p, "review_1"@, a.review@) && fills(
                p,
                "hypothesis_2_id"@,
                decimal_int(b.id as int),
            ) && fills(p, "hypothesis_2"@, b.text@) && fills(p, "review_2"@, b.review@)
            &&& plan_of(PromptNeed::Evolution, goal, preferences, m) matches Ok(Some(p))
                && p.mode == AgentMode::EvolutionCombine && fills(
                p,
                "hypothesis_a_id"@,
                decimal_int(a.id as int),
            ) && fills(p, "hypothesis_a"@, a.text@) && fills(p, "review_a"@, a.review@) && fills(
                p,
                "hypothesis_b_id"@,
                decimal_int(b.id as int),
            ) && fills(p, "hypothesis_b"@, b.text@) && fills(p, "review_b"@, b.review@)
        }),
{
    if m.contenders@.len() >= 2 {
        let a = m.contenders@[0];
        let b = m.contenders@[1];
        let p = pairwise_view(goal, preferences, a, b);
        assert(p.fields[2] == ("hypothesis_1_id"@, decimal_int(a.id as int)));
        assert(p.fields[3] == ("hypothesis_1"@, a.text@));
        assert(p.fields[4] == ("hypothesis_2_id"@, decimal_int(b.id as int)));
        assert(p.fields[5] == ("hypothesis_2"@, b.text@));
        assert(p.fields[6] == ("review_1"@, a.review@));
        assert(p.fields[7] == ("review_2"@, b.review@));
        let q = evolution_view(goal, preferences, a, b);
        assert(q.fields[2] == ("hypothesis_a_id"@, decimal_int(a.id as int)));
        assert(q.fields[3] == ("hypothesis_a"@, a.text@));
        assert(q.fields[4] == ("hypothesis_b_id"@, decimal_int(b.id as int)));
        assert(q.fields[5] == ("hypothesis_b"@, b.text@));
        assert(q.fields[6] == ("review_a"@, a.review@));
        assert(q.fields[7] == ("review_b"@, b.review@));
    }
}

/// A review and a design show the hypothesis that the task names, with its text; where
/// it is not known, the prompt fails and says so.
pub proof fn law_the_named_hypothesis_is_shown(
    goal: Seq<char>,
    preferences: Seq<char>,
    id: i64,
    m: Material,
)
    ensures
        m.hypothesis is None ==> plan_of(
            PromptNeed::Review { hypothesis_id: id },
            goal,
            preferences,
            m,
        ) == Err::<Option<PlanView>, PromptError>(PromptError::UnknownHypothesis(id)) && plan_of(
            PromptNeed::ExperimentDesign { hypothesis_id: id },
            goal,
            preferences,
            m,
        ) == Err::<Option<PlanView>, PromptError>(PromptError::UnknownHypothesis(id)),
        m.hypothesis is Some ==> ({
            &&& plan_of(PromptNeed::Review { hypothesis_id: id }, goal, preferences, m) matches Ok(
                Some(p),
            ) && p.mode == AgentMode::ReflectionReview && fills(
                p,
                "hypothesis_id"@,
                decimal_int(id as int),
            ) && fills(p, "hypothesis_text"@, m.hypothesis->0@)
            &&& plan_of(
                PromptNeed::ExperimentDesign { hypothesis_id: id },
                goal,
                preferences,
                m,
            ) matches Ok(Some(p)) && p.mode == AgentMode::ExperimentDesign && fills(
                p,
                "hypothesis_id"@,
                decimal_int(id as int),
            ) && fills(p, "hypothesis_text"@, m.hypothesis->0@)
        }),
{
    if m.hypothesis is Some {
        let text = m.hypothesis->0@;
        let p = review_view(goal, preferences, id, text);
        assert(p.fields[2] == ("hypothesis_id"@, decimal_int(id as int)));
        assert(p.fields[3] == ("hypothesis_text"@, text));
        let q = experiment_design_view(goal, preferences, id, text);
        assert(q.fields[2] == ("hypothesis_id"@, decimal_int(id as int)));
        assert(q.fields[3] == ("hypothesis_text"@, text));
    }
}

/// An experiment is executed by its own code, judged by what it put out, and reflected on
/// with its metric and the latest review of the hypothesis.
pub proof fn law_the_experiment_is_shown(
    goal: Seq<char>,
    preferences: Seq<char>,
    id: i64,
    wanted_id: i64,
    named: Option<i64>,
    m: Material,
)
    requires
        m.experiment is Some,
        m.hypothesis is Some,
    ensures
        ({
            let exp = m.experiment->0;
            let text = m.hypothesis->0@;
            &&& plan_of(
                PromptNeed::ExperimentExecute { experiment: named },
                goal,
                preferences,
                m,
            ) matches Ok(Some(p)) && p.mode == AgentMode::ExperimentExecute && fills(
                p,
                "experiment_id"@,
                decimal_int(exp.id as int),
            ) && fills(p, "metric_name"@, exp.metric_name@) && fills(p, "code"@, exp.code@)
            &&& plan_of(
                PromptNeed::ExperimentEvaluate { experiment: named },
                goal,
                preferences,
                m,
            ) matches Ok(Some(p)) && p.mode == AgentMode::ExperimentEvaluate && fills(
                p,
                "experiment_id"@,
                decimal_int(exp.id as int),
            ) && fills(p, "hypothesis_id"@, decimal_int(exp.hypothesis_id as int)) && fills(
                p,
                "hypothesis_text"@,
                text,
            ) && fills(p, "status"@, exp.status@) && fills(p, "stdout"@, shown_output(exp.stdout))
                && fills(p, "stderr"@, shown_output(exp.stderr))
            &&& plan_of(
                PromptNeed::ReflectionOnResult { hypothesis_id: id, experiment_id: wanted_id },
                goal,
                preferences,
                m,
            ) matches Ok(Some(p)) && p.mode == AgentMode::ReflectionOnResult && fills(
                p,
                "hypothesis_id"@,
                decimal_int(id as int),
            ) && fills(p, "hypothesis_text"@, text) && fills(
                p,
                "experiment_id"@,
                decimal_int(exp.id as int),
            ) && fills(p, "metric_name"@, exp.metric_name@) && fills(
                p,
                "prior_review"@,
                review_from(m.reviews@, id, 0),
            )
        }),
{
    let exp = m.experiment->0;
    let text = m.hypothesis->0@;
    let p = experiment_execute_view(goal, preferences, exp);
    assert(p.fields[2] == ("experiment_id"@, decimal_int(exp.id as int)));
    assert(p.fields[3] == ("metric_name"@, exp.metric_name@));
    assert(p.fields[4] == ("code"@, exp.code@));
    let q = experiment_evaluate_view(goal, preferences, exp, text);
    assert(q.fields[2] == ("experiment_id"@, decimal_int(exp.id as int)));
    assert(q.fields[3] == ("hypothesis_id"@, decimal_int(exp.hypothesis_id as int)));
    assert(q.fields[4] == ("hypothesis_text"@, text));
    assert(q.fields[5] == ("status"@, exp.status@));
    assert(q.fields[10] == ("stdout"@, shown_output(exp.stdout)));
    assert(q.fields[11] == ("stderr"@, shown_output(exp.stderr)));
    let prior = review_from(m.reviews@, id, 0);
    let r = reflection_on_result_view(goal, preferences, id, text, exp, prior, m.verdict);
    assert(r.fields[2] == ("hypothesis_id"@, decimal_int(id as int)));
    assert(r.fields[3] == ("hypothesis_text"@, text));
    assert(r.fields[4] == ("experiment_id"@, decimal_int(exp.id as int)));
    assert(r.fields[5] == ("metric_name"@, exp.metric_name@));
    assert(r.fields[10] == ("prior_review"@, prior));
}

/// What each agent's task needs. A reflection must name a hypothesis, and an experiment
/// too where it reflects on a result; a design must name a hypothesis; nothing else fails
/// at this point.
pub proof fn law_what_a_task_must_name(agent: Seq<char>, args: Json)
    ensures
        ({
            let mode = mode_of(args);
            let h = args.integer_at("hypothesis_id"@);
            let e = args.integer_at("experiment_id"@);
            &&& need_of(agent, args) is Err <==> {
                ||| agent == "reflection"@ && h is None
                ||| agent == "reflection"@ && mode == "reflection_on_result"@ && e is None
                ||| agent == "experiment"@ && mode == "experiment_design"@ && h is None
            }
            &&& agent == "reflection"@ && h is Some && mode == "reflection_on_result"@ && e is Some
                ==> (need_of(agent, args) matches Ok(PromptNeed::ReflectionOnResult {
                hypothesis_id,
                experiment_id,
            }) && hypothesis_id == h->0 && experiment_id == e->0)
            &&& agent == "reflection"@ && h is Some && mode != "reflection_on_result"@ ==> (need_of(
                agent,
                args,
            ) matches Ok(PromptNeed::Review { hypothesis_id }) && hypothesis_id == h->0)
            &&& agent == "ranking"@ ==> (need_of(agent, args) matches Ok(PromptNeed::Pairwise))
            &&& agent == "evolution"@ ==> (need_of(agent, args) matches Ok(PromptNeed::Evolution))
            &&& agent == "generation"@ ==> (need_of(agent, args) matches Ok(PromptNeed::Generation))
            &&& agent == "metareview"@ ==> (need_of(agent, args) matches Ok(PromptNeed::MetaReview))
            &&& agent == "experiment"@ && mode == "experiment_design"@ && h is Some ==> (need_of(
                agent,
                args,
            ) matches Ok(PromptNeed::ExperimentDesign { hypothesis_id }) && hypothesis_id == h->0)
            &&& agent == "experiment"@ && mode == "experiment_execute"@ ==> (need_of(
                agent,
                args,
            ) matches Ok(PromptNeed::ExperimentExecute { experiment }) && experiment == e)
            &&& agent == "experiment"@ && mode == "experiment_evaluate"@ ==> (need_of(
                agent,
                args,
            ) matches Ok(PromptNeed::ExperimentEvaluate { experiment }) && experiment == e)
        }),
{
    reveal_strlit("reflection");
    reveal_strlit("ranking");
    reveal_strlit("evolution");
    reveal_strlit("generation");
    reveal_strlit("metareview");
    reveal_strlit("experiment");
    assert("reflection"@.len() == 10 && "reflection"@[0] == 'r');
    assert("generation"@.len() == 10 && "generation"@[0] == 'g');
    assert("metareview"@.len() == 10 && "metareview"@[0] == 'm');
    assert("experiment"@.len() == 10 && "experiment"@[0] == 'e');
    assert("ranking"@.len() == 7 && "evolution"@.len() == 9);
    reveal_strlit("experiment_design");
    reveal_strlit("experiment_execute");
    reveal_strlit("experiment_evaluate");
    assert("experiment_design"@.len() == 17 && "experiment_execute"@.len() == 18);
    assert("experiment_evaluate"@.len() == 19);
}

/// The latest review of a hypothesis is the first in the list that speaks of it, by its
/// summary; where none does, that is said.
pub proof fn law_first_review_that_speaks_counts(rows: Seq<ReviewRow>, id: i64, from: int, k: int)
    requires
        0 <= from <= k <= rows.len(),
        forall|j: int| from <= j < k ==> !speaks_of(#[trigger] rows[j], id),
        k < rows.len() ==> speaks_of(rows[k], id),
    ensures
        review_from(rows, id, from) == (if k < rows.len() {
            rows[k].summary@
        } else {
            "(no review available)"@
        }),
    decreases k - from,
{
    if from < k {
        assert(!speaks_of(rows[from], id));
        law_first_review_that_speaks_counts(rows, id, from + 1, k);
    }
}

/// A review speaks of a hypothesis where its number stands in the details with no digit
/// right before or behind it; a review without details speaks of none.
pub proof fn law_when_a_review_speaks(
    row: ReviewRow,
    id: i64,
    before: Seq<char>,
    after: Seq<char>,
)
    ensures
        row.details is None ==> !speaks_of(row, id),
        row.details is Some && row.details->0@ == before + decimal_int(id as int) + after && (
        before.len() > 0 ==> !('0' <= before.last() <= '9')) && (after.len() > 0 ==> !('0'
            <= after[0] <= '9')) ==> speaks_of(row, id),
        speaks_of(row, id) ==> ({
            let d = row.details->0@;
            let w = decimal_int(id as int);
            exists|i: int|
                {
                    &&& 0 <= i <= d.len() - w.len()
                    &&& #[trigger] d.subrange(i, i + w.len()) == w
                    &&& i > 0 ==> !('0' <= d[i - 1] <= '9')
                    &&& i + w.len() < d.len() ==> !('0' <= d[i + w.len()] <= '9')
                }
        }),
{
    let w = decimal_int(id as int);
    if row.details is Some {
        let d = row.details->0@;
        if d == before + w + after && (before.len() > 0 ==> !('0' <= before.last() <= '9')) && (
        after.len() > 0 ==> !('0' <= after[0] <= '9')) {
            let n = before.len() as int;
            assert(d.subrange(n, n + w.len()) =~= w);
            if n > 0 {
                assert(d[n - 1] == before.last());
            }
            if after.len() > 0 {
                assert(d[n + w.len()] == after[0]);
            }
            assert(number_at(d, w, n));
        }
        if speaks_of(row, id) {
            let i = choose|i: int| number_at(d, w, i);
            assert(d.subrange(i, i + w.len()) == w);
        }
    }
}

/// Output that fits is shown whole; what does not fit is shown up to the limit and marked
/// as cut; that there is none is said.
pub proof fn law_how_output_is_shown(out: Option<String>)
    ensures
        out is None ==> shown_output(out) == "(empty)"@,
        out is Some && vstd::utf8::encode_utf8(out->0@).len() <= 2000 ==> shown_output(out)
            == out->0@,
        out is Some && vstd::utf8::encode_utf8(out->0@).len() > 2000 ==> exists|k: int|
            0 <= k < out->0@.len() && shown_output(out) == #[trigger] out->0@.take(k)
                + "…(truncated)"@ && vstd::utf8::encode_utf8(out->0@.take(k)).len() <= 2000
                && vstd::utf8::encode_utf8(out->0@.take(k + 1)).len() > 2000,
{
    if let Some(s) = out {
        crate::text::law_byte_len_is_utf8_length(s@);
        crate::text::law_cut_text_is_longest_that_fits(s@, 2000);
        if byte_len(s@) > 2000 {
            let k = byte_prefix(s@, 2000).len() as int;
            if k == s@.len() {
                assert(s@.take(k) =~= s@);
            }
            assert(shown_output(out) == s@.take(k) + "…(truncated)"@);
        }
    }
}

/// For a match at most two hypotheses are chosen, each of the session, playing, and with
/// fewer than three matches; for evolution at most two of the session in play.
pub proof fn law_contenders_come_from_the_session(
    rows: Seq<HypothesisView>,
    session: Seq<char>,
    ids: Seq<i64>,
    k: int,
)
    requires
        0 <= k < ids.len(),
    ensures
        chosen_for(PromptNeed::Pairwise, rows, session, ids) ==> ids.len() <= 2 && exists|
            h: HypothesisView,
        |
            #![trigger rows.contains(h)]
            rows.contains(h) && h.id == ids[k] && h.session_id == session && (h.state
                == crate::hypothesis::HypothesisState::InTournament || h.state
                == crate::hypothesis::HypothesisState::Ranked) && h.matches_played < 3,
        chosen_for(PromptNeed::Evolution, rows, session, ids) ==> ids.len() <= 2 && exists|
            h: HypothesisView,
        |
            #![trigger rows.contains(h)]
            rows.contains(h) && h.id == ids[k] && h.session_id == session && h.state
                != crate::hypothesis::HypothesisState::Rejected && h.state
                != crate::hypothesis::HypothesisState::Pinned,
{
    if chosen_for(PromptNeed::Pairwise, rows, session, ids) {
        let out = choose|out: Seq<HypothesisView>| #[trigger]
            lists_first(
                wanted(rows, session, Wanted::Unplayed(MATCHES_WANTED)),
                Ordered::ByMatches,
                2,
                out,
            ) && ids == ids_of(out);
        crate::hypothesis::law_those_short_of_matches_are_listed(
            rows,
            session,
            MATCHES_WANTED,
            2,
            out,
        );
        assert(rows.contains(out[k]));
        assert(ids[k] == out[k].id);
    }
    if chosen_for(PromptNeed::Evolution, rows, session, ids) {
        let out = choose|out: Seq<HypothesisView>| #[trigger]
            lists_first(wanted(rows, session, Wanted::Active), Ordered::ByRating, 2, out) && ids
                == ids_of(out);
        crate::hypothesis::law_the_best_are_listed(rows, session, 2, out);
        assert(rows.contains(out[k]));
        assert(ids[k] == out[k].id);
    }
}

/// Feedback is handed on behind a heading, all of it, in order; without any there is neither
/// heading nor feedback.
pub proof fn law_feedback_is_handed_on(feedback: Seq<Seq<char>>)
    ensures
        ({
            let bare = "(no external literature available; use your training knowledge)\n\n"@;
            let text = joined(feedback, "\n---\n"@);
            &&& articles(Seq::empty()) == bare
            &&& text.len() == 0 ==> articles(feedback) == bare
            &&& text.len() > 0 ==> articles(feedback) == bare + "## System Feedback\n"@ + text
        }),
{
    reveal_strlit("");
    let bare = "(no external literature available; use your training knowledge)\n\n"@;
    let text = joined(feedback, "\n---\n"@);
    assert(bare + ""@ =~= bare);
    assert(joined(Seq::<Seq<char>>::empty(), "\n---\n"@).len() == 0);
    assert(bare + ("## System Feedback\n"@ + text) =~= bare + "## System Feedback\n"@ + text);
}

/// New hypotheses are asked for with the feedback that there is, and a summary with all
/// rationales, in order; where there are none it says so.
pub proof fn law_notes_reach_their_prompts(goal: Seq<char>, preferences: Seq<char>, m: Material)
    ensures
        plan_of(PromptNeed::Generation, goal, preferences, m) matches Ok(Some(p)) && p.mode
            == AgentMode::GenerationLiterature && fills(
            p,
            "articles_with_reasoning"@,
            articles(views(m.notes@)),
        ),
        plan_of(PromptNeed::MetaReview, goal, preferences, m) matches Ok(Some(p)) && p.mode
            == AgentMode::MetaReviewSystem && fills(
            p,
            "reviews_overview"@,
            if m.notes@.len() == 0 {
                "(no tournament data yet)"@
            } else {
                joined(views(m.notes@), "\n---\n"@)
            },
        ),
{
    let notes = views(m.notes@);
    let g = generation_view(goal, preferences, notes);
    assert(g.fields[2] == ("articles_with_reasoning"@, articles(notes)));
    let r = metareview_view(goal, preferences, notes);
    assert(r.fields[2] == (
        "reviews_overview"@,
        if m.notes@.len() == 0 {
            "(no tournament data yet)"@
        } else {
            joined(notes, "\n---\n"@)
        },
    ));
}

/// What was measured in an experiment stands in the prompt that judges it: its metric, its
/// exit code and how long it ran, each under its own name, or `null`. A second look gets the
/// latest verdict in full, or the note that there is none.
pub proof fn law_results_are_shown_in_full(
    goal: Seq<char>,
    preferences: Seq<char>,
    id: i64,
    wanted_id: i64,
    named: Option<i64>,
    m: Material,
)
    requires
        m.experiment is Some,
        m.hypothesis is Some,
    ensures
        ({
            let exp = m.experiment->0;
            let metric = match exp.metric_value {
                Some(v) => v@,
                None => "null"@,
            };
            &&& plan_of(
                PromptNeed::ExperimentEvaluate { experiment: named },
                goal,
                preferences,
                m,
            ) matches Ok(Some(p)) && fills(p, "metric_value"@, metric) && fills(
                p,
                "metric_name"@,
                exp.metric_name@,
            ) && fills(
                p,
                "exit_code"@,
                match exp.exit_code {
                    Some(n) => decimal_int(n as int),
                    None => "null"@,
                },
            ) && fills(
                p,
                "duration_ms"@,
                match exp.duration_ms {
                    Some(n) => decimal_int(n as int),
                    None => "null"@,
                },
            )
            &&& plan_of(
                PromptNeed::ReflectionOnResult { hypothesis_id: id, experiment_id: wanted_id },
                goal,
                preferences,
                m,
            ) matches Ok(Some(p)) && fills(p, "metric_value"@, metric) && (m.verdict matches Some(v)
                ==> fills(p, "result_summary"@, v.0@) && fills(p, "result_details"@, v.1@)) && (
            m.verdict is None ==> fills(p, "result_summary"@, "(no evaluate_result recorded)"@)
                && fills(p, "result_details"@, "{}"@))
        }),
{
    let exp = m.experiment->0;
    let text = m.hypothesis->0@;
    let metric = text_or(exp.metric_value, "null"@);
    let q = experiment_evaluate_view(goal, preferences, exp, text);
    assert(q.fields[6] == ("metric_name"@, exp.metric_name@));
    assert(q.fields[7] == ("metric_value"@, metric));
    assert(q.fields[8] == ("exit_code"@, number_or_null(exp.exit_code)));
    assert(q.fields[9] == ("duration_ms"@, number_or_null(exp.duration_ms)));
    let prior = review_from(m.reviews@, id, 0);
    let r = reflection_on_result_view(goal, preferences, id, text, exp, prior, m.verdict);
    assert(r.fields[6] == ("metric_value"@, metric));
    if let Some(v) = m.verdict {
        assert(r.fields[8] == ("result_summary"@, v.0@));
        assert(r.fields[9] == ("result_details"@, v.1@));
    } else {
        assert(r.fields[8] == ("result_summary"@, "(no evaluate_result recorded)"@));
        assert(r.fields[9] == ("result_details"@, "{}"@));
    }
}

/// A prompt whose hypothesis or experiment cannot be found is refused, and the error names
/// what is missing.
pub proof fn law_what_is_missing_is_named(
    goal: Seq<char>,
    preferences: Seq<char>,
    id: i64,
    wanted_id: i64,
    named: Option<i64>,
    m: Material,
)
    ensures
        ({
            let look = plan_of(
                PromptNeed::ReflectionOnResult { hypothesis_id: id, experiment_id: wanted_id },
                goal,
                preferences,
                m,
            );
            let judge = plan_of(
                PromptNeed::ExperimentEvaluate { experiment: named },
                goal,
                preferences,
                m,
            );
            &&& look is Err <==> m.hypothesis is None || m.experiment is None
            &&& m.hypothesis is None ==> look == Err::<Option<PlanView>, PromptError>(
                PromptError::UnknownHypothesis(id),
            )
            &&& m.hypothesis is Some && m.experiment is None ==> look == Err::<
                Option<PlanView>,
                PromptError,
            >(PromptError::UnknownExperiment(wanted_id))
            &&& judge is Err <==> m.hypothesis is None || m.experiment is None
            &&& m.experiment is Some && m.hypothesis is None ==> judge == Err::<
                Option<PlanView>,
                PromptError,
            >(PromptError::UnknownHypothesis(m.experiment->0.hypothesis_id))
            &&& plan_of(
                PromptNeed::ExperimentExecute { experiment: named },
                goal,
                preferences,
                m,
            ) is Err <==> m.experiment is None
            &&& plan_of(PromptNeed::Nothing, goal, preferences, m) == Ok::<
                Option<PlanView>,
                PromptError,
            >(None)
        }),
{
}

} // verus!
