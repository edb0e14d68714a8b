//! Events of a session, and the tally of failed markers.
//!
//! Every write to the store is also announced as a [`MemoryEvent`]. A tally
//! counts the markers that failed, by agent and operation; at the end of each
//! window it is reported, the most frequent first, and starts anew.

use vstd::prelude::*;

use crate::text::{lex_lt, lemma_lex_total, lemma_lex_trans, str_eq, str_lt};

verus! {

/// What is announced. A payload is JSON text.
#[derive(Debug)]
pub enum MemoryEvent {
    EventLogged {
        id: i64,
        run_id: String,
        agent: String,
        type_: String,
        payload: Option<String>,
    },
    SemanticSaved { id: i64, run_id: String, scope: String, summary: String },
    BehaviorSaved { id: i64, agent: String, pattern: String },
    TaskClaimed { task_id: String, worker_id: String, action: String },
    TaskCompleted { task_id: String, worker_id: String },
    TaskFailed { task_id: String, worker_id: String, error: String },
    MarkerFailed { agent: String, op: String, error: String },
    /// The failures of one window, which took `window_ms` milliseconds.
    FailureStats { window_ms: u64, top: Vec<FailureCount>, total: u64 },
}

/// How often an operation failed for an agent.
#[derive(Debug)]
pub struct FailureCount {
    pub agent: String,
    pub op: String,
    pub count: u64,
}

/// What a [`FailureCount`] holds.
#[verifier::ext_equal]
pub struct CountView {
    pub agent: Seq<char>,
    pub op: Seq<char>,
    pub count: u64,
}

impl View for FailureCount {
    type V = CountView;

    open spec fn view(&self) -> CountView {
        CountView { agent: self.agent@, op: self.op@, count: self.count }
    }
}

/// What a list of counts holds.
pub open spec fn counts_view(v: Seq<FailureCount>) -> Seq<CountView> {
    v.map_values(|c: FailureCount| c@)
}

/// How the failures are reported.
#[derive(Clone, Copy, Debug, PartialEq, Eq, Structural)]
pub struct FailureAggregatorConfig {
    /// The length of a window in milliseconds.
    pub flush_interval_ms: u64,
    /// How many rows a report has at most.
    pub top_n: usize,
}

impl Default for FailureAggregatorConfig {
    /// A report of five rows every minute.
    fn default() -> (r: FailureAggregatorConfig)
        ensures
            r.flush_interval_ms == 60_000,
            r.top_n == 5,
    {
        FailureAggregatorConfig { flush_interval_ms: 60_000, top_n: 5 }
    }
}

/// Whether a row comes before another in a report: by count, the highest first,
/// and by operation where the counts are equal.
pub open spec fn before(a: CountView, b: CountView) -> bool {
    a.count > b.count || (a.count == b.count && lex_lt(a.op, b.op))
}

/// Whether no row comes before one that stands in front of it.
pub open spec fn in_report_order(rows: Seq<CountView>) -> bool {
    forall|i: int, j: int| 0 <= i < j < rows.len() ==> !before(rows[j], rows[i])
}

/// The first `n` rows, or all of them where there are fewer.
pub open spec fn first_rows(rows: Seq<CountView>, n: nat) -> Seq<CountView> {
    if n < rows.len() {
        rows.take(n as int)
    } else {
        rows
    }
}

/// Whether `top` is a report of at most `n` of the rows: the first ones of all
/// the rows in report order.
pub open spec fn reports_top(rows: Seq<CountView>, n: nat, top: Seq<CountView>) -> bool {
    exists|sorted: Seq<CountView>|
        {
            &&& #[trigger] in_report_order(sorted)
            &&& sorted.to_multiset() == rows.to_multiset()
            &&& top == first_rows(sorted, n)
        }
}

/// How often `op` failed for `agent`.
pub open spec fn tallied(rows: Seq<CountView>, agent: Seq<char>, op: Seq<char>) -> nat
    decreases rows.len(),
{
    if rows.len() == 0 {
        0
    } else {
        tallied(rows.drop_last(), agent, op) + (if rows.last().agent == agent && rows.last().op
            == op {
            rows.last().count as nat
        } else {
            0
        })
    }
}

/// All the failures together.
pub open spec fn summed(rows: Seq<CountView>) -> nat
    decreases rows.len(),
{
    if rows.len() == 0 {
        0
    } else {
        summed(rows.drop_last()) + rows.last().count as nat
    }
}

/// Whether every pair of agent and operation has one row at most.
pub open spec fn one_row_each(rows: Seq<CountView>) -> bool {
    forall|i: int, j: int|
        0 <= i < j < rows.len() ==> rows[i].agent != rows[j].agent || rows[i].op != rows[j].op
}

/// Whether every row counts a failure.
pub open spec fn each_failed(rows: Seq<CountView>) -> bool {
    forall|i: int| 0 <= i < rows.len() ==> (#[trigger] rows[i]).count >= 1
}

proof fn lemma_bump(rows: Seq<CountView>, i: int, agent: Seq<char>, op: Seq<char>)
    requires
        0 <= i < rows.len(),
        rows[i].count < u64::MAX,
    ensures
        ({
            let row = CountView { count: (rows[i].count + 1) as u64, ..rows[i] };
            &&& summed(rows.update(i, row)) == summed(rows) + 1
            &&& tallied(rows.update(i, row), agent, op) == tallied(rows, agent, op) + (if rows[i].agent
                == agent && rows[i].op == op {
                1nat
            } else {
                0
            })
        }),
    decreases rows.len(),
{
    let row = CountView { count: (rows[i].count + 1) as u64, ..rows[i] };
    let after = rows.update(i, row);
    if i == rows.len() - 1 {
        assert(after.drop_last() =~= rows.drop_last());
    } else {
        lemma_bump(rows.drop_last(), i, agent, op);
        assert(after.drop_last() =~= rows.drop_last().update(i, row));
    }
}

proof fn lemma_row_bound(rows: Seq<CountView>, i: int)
    requires
        0 <= i < rows.len(),
    ensures
        rows[i].count <= summed(rows),
    decreases rows.len(),
{
    if i < rows.len() - 1 {
        lemma_row_bound(rows.drop_last(), i);
    }
}

/// Counts failures until they are reported.
#[derive(Debug)]
pub struct FailureTally {
    rows: Vec<FailureCount>,
    total: u64,
}

impl FailureTally {
    /// The rows, in the order in which they first failed.
    pub closed spec fn rows(self) -> Seq<CountView> {
        counts_view(self.rows@)
    }

    /// Every pair that failed has one row, and the total is the sum of the rows.
    pub closed spec fn wf(self) -> bool {
        &&& one_row_each(self.rows())
        &&& each_failed(self.rows())
        &&& self.total == summed(self.rows())
    }

    /// An empty tally.
    pub fn new() -> (r: FailureTally)
        ensures
            r.wf(),
            r.rows() == Seq::<CountView>::empty(),
    {
        let r = FailureTally { rows: Vec::new(), total: 0 };
        proof {
            assert(r.rows() =~= Seq::<CountView>::empty());
        }
        r
    }

    /// All the failures together.
    pub fn total(&self) -> (r: u64)
        requires
            self.wf(),
        ensures
            r == summed(self.rows()),
    {
        self.total
    }

    /// Counts one failure.
    pub fn record(&mut self, agent: String, op: String)
        requires
            old(self).wf(),
            summed(old(self).rows()) < u64::MAX,
        ensures
            final(self).wf(),
            one_row_each(final(self).rows()),
            each_failed(final(self).rows()),
            summed(final(self).rows()) == summed(old(self).rows()) + 1,
            forall|a: Seq<char>, o: Seq<char>| #[trigger]
                tallied(final(self).rows(), a, o) == tallied(old(self).rows(), a, o) + (if a
                    == agent@ && o == op@ {
                    1nat
                } else {
                    0
                }),
    {
        let ghost before_rows = self.rows();
        let mut i: usize = 0;
        while i < self.rows.len()
            invariant
                i <= self.rows@.len(),
                self.rows() == before_rows,
                before_rows == old(self).rows(),
                self.wf(),
                summed(before_rows) < u64::MAX,
                forall|j: int|
                    0 <= j < i ==> (#[trigger] before_rows[j]).agent != agent@ || before_rows[j].op
                        != op@,
            decreases self.rows.len() - i,
        {
            if str_eq(self.rows[i].agent.as_str(), agent.as_str()) && str_eq(
                self.rows[i].op.as_str(),
                op.as_str(),
            ) {
                proof {
                    lemma_row_bound(before_rows, i as int);
                }
                let count: u64 = self.rows[i].count + 1;
                let ghost row = CountView { agent: agent@, op: op@, count };
                self.rows.set(i, FailureCount { agent, op, count });
                self.total = self.total + 1;
                proof {
                    assert(self.rows() =~= before_rows.update(i as int, row));
                    assert(row == CountView {
                        count: (before_rows[i as int].count + 1) as u64,
                        ..before_rows[i as int]
                    });
                    assert forall|a: Seq<char>, o: Seq<char>| #[trigger]
                        tallied(self.rows(), a, o) == tallied(before_rows, a, o) + (if a == row.agent
                            && o == row.op {
                            1nat
                        } else {
                            0
                        }) by {
                        lemma_bump(before_rows, i as int, a, o);
                    }
                    lemma_bump(before_rows, i as int, row.agent, row.op);
                    assert(one_row_each(self.rows()));
                }
                return;
            }
            i += 1;
        }
        let ghost row = CountView { agent: agent@, op: op@, count: 1 };
        self.rows.push(FailureCount { agent, op, count: 1 });
        self.total = self.total + 1;
        proof {
            assert(self.rows() =~= before_rows.push(row));
            assert(self.rows().drop_last() =~= before_rows);
            assert(self.rows().last() == row);
        }
    }

    /// Reports the most frequent failures and starts anew.
    pub fn flush(&mut self, top_n: usize) -> (r: (Vec<FailureCount>, u64))
        requires
            old(self).wf(),
        ensures
            final(self).wf(),
            final(self).rows() == Seq::<CountView>::empty(),
            r.1 == summed(old(self).rows()),
            reports_top(old(self).rows(), top_n as nat, counts_view(r.0@)),
    {
        let ghost rows = self.rows();
        let total = self.total;
        let mut pending: Vec<FailureCount> = Vec::new();
        std::mem::swap(&mut pending, &mut self.rows);
        self.total = 0;
        proof {
            assert(self.rows() =~= Seq::<CountView>::empty());
        }
        let mut sorted: Vec<FailureCount> = Vec::new();
        proof {
            assert(counts_view(sorted@) =~= Seq::<CountView>::empty());
            assert(rows =~= counts_view(pending@));
            rows.to_multiset_ensures();
            Seq::<CountView>::empty().to_multiset_ensures();
            assert(counts_view(sorted@).to_multiset().add(counts_view(pending@).to_multiset())
                =~= rows.to_multiset());
        }
        while pending.len() > 0
            invariant
                in_report_order(counts_view(sorted@)),
                counts_view(sorted@).to_multiset().add(counts_view(pending@).to_multiset())
                    == rows.to_multiset(),
            decreases pending.len(),
        {
            let ghost was = counts_view(pending@);
            let ghost had = counts_view(sorted@);
            match pending.pop() {
                Some(row) => {
                    let ghost shown = row@;
                    proof {
                        assert(counts_view(pending@) =~= was.drop_last());
                        assert(was =~= was.drop_last().push(shown));
                        was.drop_last().to_multiset_ensures();
                    }
                    insert_row(&mut sorted, row);
                    proof {
                        assert(counts_view(sorted@).to_multiset().add(
                            counts_view(pending@).to_multiset(),
                        ) =~= had.to_multiset().add(was.to_multiset()));
                    }
                },
                None => {},
            }
        }
        proof {
            assert(counts_view(pending@) =~= Seq::<CountView>::empty());
            Seq::<CountView>::empty().to_multiset_ensures();
            assert(counts_view(sorted@).to_multiset() =~= rows.to_multiset());
        }
        let ghost all = counts_view(sorted@);
        sorted.truncate(top_n);
        proof {
            assert(counts_view(sorted@) =~= first_rows(all, top_n as nat));
            assert(in_report_order(all));
        }
        (sorted, total)
    }
}

/// Puts a row behind those that come before it or are its equal.
fn insert_row(sorted: &mut Vec<FailureCount>, row: FailureCount)
    requires
        in_report_order(counts_view(old(sorted)@)),
    ensures
        in_report_order(counts_view(final(sorted)@)),
        counts_view(final(sorted)@).to_multiset() == counts_view(old(sorted)@).to_multiset().insert(
            row@,
        ),
{
    let ghost rows = counts_view(sorted@);
    let ghost shown = row@;
    let mut i: usize = 0;
    while i < sorted.len() && !comes_before(&row, &sorted[i])
        invariant
            i <= sorted@.len(),
            rows == counts_view(sorted@),
            shown == row@,
            forall|j: int| 0 <= j < i ==> !before(shown, #[trigger] rows[j]),
        decreases sorted.len() - i,
    {
        i += 1;
    }
    sorted.insert(i, row);
    proof {
        let after = counts_view(sorted@);
        assert(after =~= rows.insert(i as int, shown));
        after.to_multiset_ensures();
        assert(after.remove(i as int) =~= rows);
        assert(after.contains(after[i as int]));
        assert(rows.to_multiset().insert(shown) =~= after.to_multiset());
        assert forall|a: int, b: int| 0 <= a < b < after.len() implies !before(
            after[b],
            after[a],
        ) by {
            if b == i {
                assert(after[a] == rows[a]);
            } else if a == i {
                assert(after[b] == rows[b - 1]);
                assert(before(shown, rows[i as int]));
                if b - 1 > i {
                    assert(!before(rows[b - 1], rows[i as int]));
                } else {
                    lemma_lex_total(rows[i as int].op, rows[i as int].op);
                }
                lemma_before(shown, rows[i as int], rows[b - 1]);
            } else {
                let x = if a < i { a } else { a - 1 };
                let y = if b < i { b } else { b - 1 };
                assert(after[a] == rows[x] && after[b] == rows[y]);
            }
        }
    }
}

/// What comes before `b` is not passed by what does not come before `b`.
proof fn lemma_before(a: CountView, b: CountView, c: CountView)
    requires
        before(a, b),
        !before(c, b),
    ensures
        !before(c, a),
{
    lemma_lex_total(c.op, b.op);
    if before(c, a) {
        if c.count == a.count && a.count == b.count {
            lemma_lex_trans(c.op, a.op, b.op);
        }
    }
}

/// Whether a row comes before another in a report.
fn comes_before(a: &FailureCount, b: &FailureCount) -> (r: bool)
    ensures
        r == before(a@, b@),
{
    a.count > b.count || (a.count == b.count && str_lt(a.op.as_str(), b.op.as_str()))
}

/// What the aggregator hears next.
#[derive(Debug)]
pub enum AggregatorInput {
    /// An event of the bus.
    Event(MemoryEvent),
    /// Events were lost because the bus ran ahead.
    Lagged(u64),
    /// The bus is gone.
    Closed,
    /// A window has passed.
    Tick,
    /// The session ends.
    Shutdown,
}

/// What the aggregator does then.
#[derive(Debug)]
pub enum AggregatorAction {
    Continue,
    /// Announce a report.
    Publish(MemoryEvent),
    /// Announce a last report and stop.
    PublishAndStop(MemoryEvent),
    Stop,
}

/// Whether an event is the report of `rows` under `config`.
pub open spec fn is_report(
    ev: MemoryEvent,
    config: FailureAggregatorConfig,
    rows: Seq<CountView>,
) -> bool {
    match ev {
        MemoryEvent::FailureStats { window_ms, top, total } => {
            &&& window_ms == config.flush_interval_ms
            &&& total == summed(rows)
            &&& reports_top(rows, config.top_n as nat, counts_view(top@))
        },
        _ => false,
    }
}

/// Counts failures and reports them at the end of each window.
#[derive(Debug)]
pub struct Aggregator {
    pub config: FailureAggregatorConfig,
    pub tally: FailureTally,
    /// How many reports there were.
    pub flushes: u64,
}

impl Aggregator {
    /// An aggregator that has counted nothing.
    pub fn new(config: FailureAggregatorConfig) -> (r: Aggregator)
        ensures
            r.config == config,
            r.tally.wf(),
            r.tally.rows() == Seq::<CountView>::empty(),
            r.flushes == 0,
    {
        Aggregator { config, tally: FailureTally::new(), flushes: 0 }
    }

    /// The report of what was counted; the count starts anew.
    fn report(&mut self) -> (ev: MemoryEvent)
        requires
            old(self).tally.wf(),
            old(self).flushes < u64::MAX,
        ensures
            final(self).tally.wf(),
            final(self).tally.rows() == Seq::<CountView>::empty(),
            final(self).config == old(self).config,
            final(self).flushes == old(self).flushes + 1,
            is_report(ev, old(self).config, old(self).tally.rows()),
    {
        let (top, total) = self.tally.flush(self.config.top_n);
        self.flushes = self.flushes + 1;
        MemoryEvent::FailureStats { window_ms: self.config.flush_interval_ms, top, total }
    }

    /// One step. A failed marker is counted. The end of a window and the end of
    /// the session report what was counted, so that nothing is dropped in
    /// silence. Without a bus there is nobody to report to.
    pub fn step(&mut self, input: AggregatorInput) -> (action: AggregatorAction)
        requires
            old(self).tally.wf(),
            summed(old(self).tally.rows()) < u64::MAX,
            old(self).flushes < u64::MAX,
        ensures
            final(self).tally.wf(),
            one_row_each(final(self).tally.rows()),
            each_failed(final(self).tally.rows()),
            final(self).config == old(self).config,
            match input {
                AggregatorInput::Event(MemoryEvent::MarkerFailed { agent, op, .. }) => {
                    &&& action is Continue
                    &&& final(self).flushes == old(self).flushes
                    &&& summed(final(self).tally.rows()) == summed(old(self).tally.rows()) + 1
                    &&& forall|a: Seq<char>, o: Seq<char>| #[trigger]
                        tallied(final(self).tally.rows(), a, o) == tallied(
                            old(self).tally.rows(),
                            a,
                            o,
                        ) + (if a == agent@ && o == op@ {
                            1nat
                        } else {
                            0
                        })
                },
                AggregatorInput::Event(_) | AggregatorInput::Lagged(_) => {
                    &&& action is Continue
                    &&& final(self).flushes == old(self).flushes
                    &&& final(self).tally.rows() == old(self).tally.rows()
                },
                AggregatorInput::Closed => {
                    &&& action is Stop
                    &&& final(self).flushes == old(self).flushes
                    &&& final(self).tally.rows() == old(self).tally.rows()
                },
                AggregatorInput::Tick => {
                    &&& final(self).flushes == old(self).flushes + 1
                    &&& final(self).tally.rows() == Seq::<CountView>::empty()
                    &&& action matches AggregatorAction::Publish(ev) && is_report(
                        ev,
                        old(self).config,
                        old(self).tally.rows(),
                    )
                },
                AggregatorInput::Shutdown => {
                    &&& final(self).flushes == old(self).flushes + 1
                    &&& final(self).tally.rows() == Seq::<CountView>::empty()
                    &&& action matches AggregatorAction::PublishAndStop(ev) && is_report(
                        ev,
                        old(self).config,
                        old(self).tally.rows(),
                    )
                },
            },
    {
        match input {
            AggregatorInput::Event(MemoryEvent::MarkerFailed { agent, op, error: _ }) => {
                self.tally.record(agent, op);
                AggregatorAction::Continue
            },
            AggregatorInput::Event(_) => AggregatorAction::Continue,
            AggregatorInput::Lagged(_) => AggregatorAction::Continue,
            AggregatorInput::Closed => AggregatorAction::Stop,
            AggregatorInput::Tick => AggregatorAction::Publish(self.report()),
            AggregatorInput::Shutdown => AggregatorAction::PublishAndStop(self.report()),
        }
    }
}

proof fn lemma_summed_multiset(a: Seq<CountView>, b: Seq<CountView>)
    requires
        a.to_multiset() == b.to_multiset(),
    ensures
        summed(a) == summed(b),
        a.len() == b.len(),
    decreases a.len(),
{
    a.to_multiset_ensures();
    b.to_multiset_ensures();
    if a.len() > 0 {
        let x = a.last();
        assert(a.to_multiset().count(x) > 0) by {
            assert(a.contains(x));
        }
        assert(b.contains(x));
        let i = b.index_of(x);
        let rest = b.remove(i);
        assert(a.drop_last().push(x) =~= a);
        a.drop_last().to_multiset_ensures();
        rest.to_multiset_ensures();
        assert(rest.insert(i, x) =~= b);
        assert(b.to_multiset() =~= rest.to_multiset().insert(x));
        assert(a.to_multiset() =~= a.drop_last().to_multiset().insert(x));
        assert(a.drop_last().to_multiset() =~= a.to_multiset().remove(x));
        assert(rest.to_multiset() =~= b.to_multiset().remove(x));
        lemma_summed_multiset(a.drop_last(), rest);
        lemma_summed_insert(rest, i, x);
    }
}

proof fn lemma_summed_insert(rows: Seq<CountView>, i: int, x: CountView)
    requires
        0 <= i <= rows.len(),
    ensures
        summed(rows.insert(i, x)) == summed(rows) + x.count,
    decreases rows.len(),
{
    let after = rows.insert(i, x);
    if i == rows.len() {
        assert(after.drop_last() =~= rows);
    } else {
        lemma_summed_insert(rows.drop_last(), i, x);
        assert(after.drop_last() =~= rows.drop_last().insert(i, x));
    }
}

/// A report never has more rows than asked for, its counts never rise from one
/// row to the next, and where all rows fit it leaves no failure out.
pub proof fn law_report(rows: Seq<CountView>, n: nat, top: Seq<CountView>)
    requires
        reports_top(rows, n, top),
    ensures
        top.len() == (if n < rows.len() {
            n
        } else {
            rows.len()
        }),
        forall|i: int, j: int| 0 <= i < j < top.len() ==> top[i].count >= top[j].count,
        rows.len() <= n ==> summed(top) == summed(rows),
{
    let sorted = choose|sorted: Seq<CountView>|
        {
            &&& #[trigger] in_report_order(sorted)
            &&& sorted.to_multiset() == rows.to_multiset()
            &&& top == first_rows(sorted, n)
        };
    lemma_summed_multiset(sorted, rows);
    assert forall|i: int, j: int| 0 <= i < j < top.len() implies top[i].count >= top[j].count by {
        assert(!before(sorted[j], sorted[i]));
    }
}

/// Failures add up: the rows of two tallies together count what each counts, and one
/// row counts for its own agent and operation.
pub proof fn law_failures_add_up(
    a: Seq<CountView>,
    b: Seq<CountView>,
    row: CountView,
    agent: Seq<char>,
    op: Seq<char>,
)
    ensures
        summed(a + b) == summed(a) + summed(b),
        summed(Seq::empty()) == 0,
        summed(seq![row]) == row.count,
        tallied(a + b, agent, op) == tallied(a, agent, op) + tallied(b, agent, op),
        tallied(Seq::empty(), agent, op) == 0,
        tallied(seq![row], agent, op) == (if row.agent == agent && row.op == op {
            row.count as nat
        } else {
            0
        }),
    decreases b.len(),
{
    reveal_with_fuel(summed, 2);
    reveal_with_fuel(tallied, 2);
    if b.len() == 0 {
        assert(a + b =~= a);
    } else {
        law_failures_add_up(a, b.drop_last(), row, agent, op);
        assert((a + b).drop_last() =~= a + b.drop_last());
    }
}

/// Every row of a report is a row of the tally, and a row that is left out failed no
/// more often than any that is shown, and where it failed as often, its operation
/// does not come before that one's by name.
pub proof fn law_report_shows_the_most_frequent(
    rows: Seq<CountView>,
    n: nat,
    top: Seq<CountView>,
    h: CountView,
)
    requires
        reports_top(rows, n, top),
    ensures
        top.contains(h) ==> rows.contains(h),
        rows.contains(h) && !top.contains(h) ==> forall|i: int|
            0 <= i < top.len() ==> (#[trigger] top[i]).count > h.count || (top[i].count == h.count
                && !lex_lt(h.op, top[i].op)),
        forall|i: int, j: int|
            #![trigger top[i], top[j]]
            0 <= i < j < top.len() ==> top[i].count > top[j].count || (top[i].count == top[j].count
                && !lex_lt(top[j].op, top[i].op)),
{
    let sorted = choose|sorted: Seq<CountView>|
        {
            &&& #[trigger] in_report_order(sorted)
            &&& sorted.to_multiset() == rows.to_multiset()
            &&& top == first_rows(sorted, n)
        };
    sorted.to_multiset_ensures();
    rows.to_multiset_ensures();
    assert(sorted.contains(h) <==> sorted.to_multiset().count(h) > 0);
    assert(rows.contains(h) <==> rows.to_multiset().count(h) > 0);
    if top.contains(h) {
        let i = choose|i: int| 0 <= i < top.len() && top[i] == h;
        assert(sorted[i] == h);
    }
    assert forall|i: int, j: int|
        #![trigger top[i], top[j]]
        0 <= i < j < top.len() implies top[i].count > top[j].count || (
    top[i].count == top[j].count && !lex_lt(top[j].op, top[i].op)) by {
        assert(!before(sorted[j], sorted[i]));
    }
    if rows.contains(h) && !top.contains(h) {
        let k = choose|k: int| 0 <= k < sorted.len() && sorted[k] == h;
        assert forall|i: int| 0 <= i < top.len() implies (#[trigger] top[i]).count > h.count || (
        top[i].count == h.count && !lex_lt(h.op, top[i].op)) by {
            if k < top.len() {
                assert(top[k] == h);
            }
            assert(!before(sorted[k], sorted[i]));
        }
    }
}

} // verus!
