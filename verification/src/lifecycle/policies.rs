//! When an idle session gets more work, and when a session ends.
//!
//! Both are pure decisions: the caller hands in counts and gets a verdict back.
//! Money and ratings are compared by the caller; the verdicts of those
//! comparisons come in as plain values.

use vstd::prelude::*;

verus! {

/// A length of time in nanoseconds.
#[derive(Clone, Copy, Debug, PartialEq, Eq, Structural)]
pub struct Nanos {
    pub nanos: u128,
}

impl Nanos {
    /// So many whole seconds.
    pub fn from_secs(secs: u64) -> (r: Nanos)
        ensures
            r.nanos == secs * 1_000_000_000,
    {
        Nanos { nanos: secs as u128 * 1_000_000_000 }
    }
}

/// Whether more work is to be found.
#[derive(Clone, Copy, Debug, PartialEq, Eq, Structural)]
pub enum InjectDecision {
    /// Nothing is left to do and the grace period is over.
    SpawnReflectionAgent,
    NoAction,
}

/// What the session has counted.
#[derive(Clone, Copy, Debug, PartialEq, Eq, Structural)]
pub struct RunCounters {
    pub tasks_completed: usize,
}

/// When an idle session gets more work.
#[derive(Clone, Copy, Debug, PartialEq, Eq, Structural)]
pub struct IdlePolicy {
    /// How long the last completion must lie back.
    pub grace: Nanos,
}

impl Default for IdlePolicy {
    /// Ten seconds of grace.
    fn default() -> (r: IdlePolicy)
        ensures
            r.grace.nanos == 10_000_000_000,
    {
        IdlePolicy { grace: Nanos { nanos: 10_000_000_000 } }
    }
}

impl IdlePolicy {
    /// More work is found once the queue is empty, nothing is under way, at least
    /// one task was completed and the grace period is over.
    pub fn should_inject(
        &self,
        counters: RunCounters,
        pending: usize,
        inflight: usize,
        since_last: Nanos,
    ) -> (r: InjectDecision)
        ensures
            r == (if pending == 0 && inflight == 0 && counters.tasks_completed > 0
                && since_last.nanos >= self.grace.nanos {
                InjectDecision::SpawnReflectionAgent
            } else {
                InjectDecision::NoAction
            }),
    {
        if pending == 0 && inflight == 0 && counters.tasks_completed > 0 && since_last.nanos
            >= self.grace.nanos {
            InjectDecision::SpawnReflectionAgent
        } else {
            InjectDecision::NoAction
        }
    }
}

/// What the budget says.
#[derive(Debug)]
pub enum BudgetVerdict {
    /// There is no budget, or some of it is left.
    Within,
    /// It is spent. `spent` is the sum in USD with two places.
    Spent { spent: String },
}

/// A hypothesis among the best ones, beside the one that held its place in the
/// previous snapshot.
#[derive(Clone, Copy, Debug, PartialEq, Eq, Structural)]
pub struct RankedPair {
    pub current_id: i64,
    pub previous_id: i64,
    /// Whether the two ratings differ by less than the tolerance.
    pub ratings_close: bool,
}

/// The state of a session on which its end is decided.
#[derive(Debug)]
pub struct RunSnapshot {
    pub elapsed: Nanos,
    /// Zero where there is no deadline.
    pub deadline: Nanos,
    pub budget: BudgetVerdict,
    /// How many hypotheses are among the best ones now.
    pub top_count: usize,
    pub min_hypotheses: usize,
    /// How many there were in the previous snapshot, if there is one.
    pub previous_count: Option<usize>,
    /// The best ones now and then, place by place, as far as both reach.
    pub pairs: Vec<RankedPair>,
    pub stability_threshold: usize,
    /// How many snapshots there were before this one.
    pub snapshot_count: usize,
    /// How many tournament matches were recorded.
    pub match_count: usize,
}

/// Whether the session goes on.
#[derive(Debug)]
pub enum TerminationDecision {
    Continue,
    Terminate { reason: String },
}

/// What a [`TerminationDecision`] holds.
pub enum VerdictView {
    Continue,
    Terminate { reason: Seq<char> },
}

impl View for TerminationDecision {
    type V = VerdictView;

    open spec fn view(&self) -> VerdictView {
        match *self {
            TerminationDecision::Continue => VerdictView::Continue,
            TerminationDecision::Terminate { reason } => VerdictView::Terminate { reason: reason@ },
        }
    }
}

/// Whether a place is held by the same hypothesis with nearly the same rating.
pub open spec fn pair_stable(p: RankedPair) -> bool {
    p.current_id == p.previous_id && p.ratings_close
}

/// Whether the best hypotheses are the same as in the previous snapshot.
pub open spec fn ranking_stable(s: RunSnapshot) -> bool {
    &&& s.previous_count == Some(s.top_count)
    &&& forall|i: int| 0 <= i < s.pairs@.len() ==> pair_stable(#[trigger] s.pairs@[i])
}

/// Whether the deadline has passed.
pub open spec fn deadline_passed(s: RunSnapshot) -> bool {
    s.deadline.nanos != 0 && s.elapsed.nanos >= s.deadline.nanos
}

/// Whether the ranking counts as settled: there are enough hypotheses, they have
/// kept their places over enough snapshots, and at least one match was played.
pub open spec fn ranking_settled(s: RunSnapshot) -> bool {
    &&& s.top_count >= s.min_hypotheses
    &&& ranking_stable(s)
    &&& s.snapshot_count + 1 >= s.stability_threshold
    &&& s.match_count >= 1
}

/// Whether the session goes on: the deadline counts first, then the budget, then
/// a settled ranking.
pub open spec fn verdict(s: RunSnapshot) -> VerdictView {
    if deadline_passed(s) {
        VerdictView::Terminate { reason: "deadline"@ }
    } else {
        match s.budget {
            BudgetVerdict::Spent { spent } => VerdictView::Terminate {
                reason: "budget ("@ + spent@ + " USD)"@,
            },
            BudgetVerdict::Within => if ranking_settled(s) {
                VerdictView::Terminate { reason: "elo_stability"@ }
            } else {
                VerdictView::Continue
            },
        }
    }
}

/// When a session ends.
#[derive(Clone, Copy, Debug, PartialEq, Eq, Structural)]
pub struct TerminationPolicy;

impl TerminationPolicy {
    /// The policy; it has nothing to configure.
    pub fn new() -> (r: TerminationPolicy)
        ensures
            r == TerminationPolicy,
    {
        TerminationPolicy
    }

    /// Whether the session goes on.
    pub fn evaluate(&self, snap: &RunSnapshot) -> (r: TerminationDecision)
        ensures
            r@ == verdict(*snap),
    {
        if snap.deadline.nanos != 0 && snap.elapsed.nanos >= snap.deadline.nanos {
            return TerminationDecision::Terminate { reason: "deadline".to_owned() };
        }
        match &snap.budget {
            BudgetVerdict::Spent { spent } => {
                let mut reason = "budget (".to_owned();
                reason.append(spent.as_str());
                reason.append(" USD)");
                return TerminationDecision::Terminate { reason };
            },
            BudgetVerdict::Within => {},
        }
        if snap.top_count >= snap.min_hypotheses && is_stable(snap) && (snap.stability_threshold
            == 0 || snap.snapshot_count >= snap.stability_threshold - 1) && snap.match_count >= 1 {
            return TerminationDecision::Terminate { reason: "elo_stability".to_owned() };
        }
        TerminationDecision::Continue
    }
}

/// Whether the best hypotheses are the same as in the previous snapshot.
fn is_stable(snap: &RunSnapshot) -> (r: bool)
    ensures
        r == ranking_stable(*snap),
{
    match snap.previous_count {
        None => {
            return false;
        },
        Some(n) => {
            if n != snap.top_count {
                return false;
            }
        },
    }
    let mut i: usize = 0;
    while i < snap.pairs.len()
        invariant
            i <= snap.pairs@.len(),
            snap.previous_count == Some(snap.top_count),
            forall|j: int| 0 <= j < i ==> pair_stable(#[trigger] snap.pairs@[j]),
        decreases snap.pairs.len() - i,
    {
        let p = snap.pairs[i];
        if p.current_id != p.previous_id || !p.ratings_close {
            proof {
                assert(!pair_stable(snap.pairs@[i as int]));
            }
            return false;
        }
        i += 1;
    }
    true
}

/// A session without a single match never ends because its ratings are stable:
/// untouched ratings prove nothing.
pub proof fn law_no_stability_without_matches(s: RunSnapshot)
    requires
        s.match_count == 0,
    ensures
        verdict(s) != (VerdictView::Terminate { reason: "elo_stability"@ }) || s.budget is Spent,
{
    reveal_strlit("deadline");
    reveal_strlit("elo_stability");
    assert("deadline"@.len() != "elo_stability"@.len());
}

/// Without a deadline no time is too long.
pub proof fn law_zero_deadline_never_passes(s: RunSnapshot)
    requires
        s.deadline.nanos == 0,
    ensures
        !deadline_passed(s),
{
}

/// While work is queued or under way nothing is injected, and neither before the
/// first completion.
pub proof fn law_idle_needs_empty_queue(
    policy: IdlePolicy,
    counters: RunCounters,
    pending: usize,
    inflight: usize,
    since_last: Nanos,
    r: InjectDecision,
)
    requires
        call_ensures(
            IdlePolicy::should_inject,
            (&policy, counters, pending, inflight, since_last),
            r,
        ),
        pending > 0 || inflight > 0 || counters.tasks_completed == 0,
    ensures
        r == InjectDecision::NoAction,
{
}

/// The end of a session, by what was counted alone. A deadline that has come ends it
/// first, and then a budget that is spent. Short of these it ends for a settled
/// ranking exactly where there are enough hypotheses among the best ones, the
/// previous snapshot had as many, every place is held by the hypothesis that held it
/// then and at a rating close to the one then, the snapshots are enough, and a match
/// was played. Otherwise it goes on.
pub proof fn law_when_a_session_ends(s: RunSnapshot)
    ensures
        ({
            let late = s.deadline.nanos > 0 && s.deadline.nanos <= s.elapsed.nanos;
            let settled = {
                &&& s.min_hypotheses <= s.top_count
                &&& s.previous_count is Some
                &&& s.previous_count->0 == s.top_count
                &&& forall|i: int|
                    0 <= i < s.pairs@.len() ==> (#[trigger] s.pairs@[i]).current_id
                        == s.pairs@[i].previous_id && s.pairs@[i].ratings_close
                &&& s.stability_threshold <= s.snapshot_count + 1
                &&& s.match_count > 0
            };
            &&& late ==> verdict(s) == (VerdictView::Terminate { reason: "deadline"@ })
            &&& !late && s.budget is Spent ==> verdict(s) == (VerdictView::Terminate {
                reason: "budget ("@ + s.budget->spent@ + " USD)"@,
            })
            &&& !late && s.budget is Within && settled ==> verdict(s) == (VerdictView::Terminate {
                reason: "elo_stability"@,
            })
            &&& !late && s.budget is Within && !settled ==> verdict(s) == VerdictView::Continue
        }),
{
    if forall|i: int|
        0 <= i < s.pairs@.len() ==> (#[trigger] s.pairs@[i]).current_id == s.pairs@[i].previous_id
            && s.pairs@[i].ratings_close {
        assert forall|i: int| 0 <= i < s.pairs@.len() implies pair_stable(
            #[trigger] s.pairs@[i],
        ) by {
            assert(s.pairs@[i].current_id == s.pairs@[i].previous_id);
        }
    } else {
        let i = choose|i: int|
            0 <= i < s.pairs@.len() && !((#[trigger] s.pairs@[i]).current_id
                == s.pairs@[i].previous_id && s.pairs@[i].ratings_close);
        assert(!pair_stable(s.pairs@[i]));
    }
}

/// While a place among the best is held by another hypothesis than before, or at a
/// rating that has moved, the ranking ends nothing: before the deadline and within
/// the budget the session goes on.
pub proof fn law_a_new_leader_keeps_the_session_going(s: RunSnapshot, i: int)
    requires
        0 <= i < s.pairs@.len(),
        s.pairs@[i].current_id != s.pairs@[i].previous_id || !s.pairs@[i].ratings_close,
        s.deadline.nanos == 0 || s.elapsed.nanos < s.deadline.nanos,
        s.budget is Within,
    ensures
        verdict(s) == VerdictView::Continue,
{
    assert(!pair_stable(s.pairs@[i]));
}

/// Time alone moves a session only toward its deadline: once it has ended there, more
/// time does not bring it back.
pub proof fn law_deadlines_do_not_come_back(s: RunSnapshot, later: RunSnapshot)
    requires
        s.deadline.nanos != 0,
        s.deadline.nanos <= s.elapsed.nanos,
        later.deadline == s.deadline,
        s.elapsed.nanos <= later.elapsed.nanos,
    ensures
        verdict(later) == (VerdictView::Terminate { reason: "deadline"@ }),
        verdict(s) == verdict(later),
{
}

/// More work is found exactly where nothing waits, nothing is under way, something
/// was completed, and the last completion lies back as long as the grace period.
pub proof fn law_when_more_work_is_found(
    policy: IdlePolicy,
    counters: RunCounters,
    pending: usize,
    inflight: usize,
    since_last: Nanos,
    r: InjectDecision,
)
    requires
        call_ensures(
            IdlePolicy::should_inject,
            (&policy, counters, pending, inflight, since_last),
            r,
        ),
    ensures
        r == InjectDecision::SpawnReflectionAgent <==> pending == 0 && inflight == 0
            && counters.tasks_completed >= 1 && policy.grace.nanos <= since_last.nanos,
{
}

} // verus!
