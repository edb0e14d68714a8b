//! How long each part of a frame takes.
//!
//! A ring of the last frames, their percentiles, and the two lines of text that
//! report them.

use vstd::prelude::*;

use crate::text::{decimal, push_decimal};

verus! {

/// How many frames are kept.
pub const WINDOW: usize = 256;

/// How long the parts of a frame took, in microseconds.
#[derive(Clone, Copy, Debug, PartialEq, Eq, Structural)]
pub struct FrameSample {
    /// Taking in the messages of the agent task.
    pub drain_us: u64,
    /// Drawing.
    pub draw_us: u64,
    /// Counting the frame.
    pub tick_us: u64,
    /// Waiting for a key.
    pub poll_us: u64,
    /// Handling a key.
    pub key_us: u64,
    /// The whole frame.
    pub total_us: u64,
    /// How many messages were taken in.
    pub agent_msg_count: u32,
}

impl FrameSample {
    /// A frame that took no time.
    pub open spec fn spec_zero() -> FrameSample {
        FrameSample {
            drain_us: 0,
            draw_us: 0,
            tick_us: 0,
            poll_us: 0,
            key_us: 0,
            total_us: 0,
            agent_msg_count: 0,
        }
    }

    /// A frame that took no time.
    pub fn zero() -> (r: FrameSample)
        ensures
            r == FrameSample::spec_zero(),
    {
        FrameSample {
            drain_us: 0,
            draw_us: 0,
            tick_us: 0,
            poll_us: 0,
            key_us: 0,
            total_us: 0,
            agent_msg_count: 0,
        }
    }
}

/// A part of a frame.
#[derive(Clone, Copy, Debug, PartialEq, Eq, Structural)]
pub enum Phase {
    Drain,
    Draw,
    Tick,
    Poll,
    Key,
    Total,
}

/// How long a part of a frame took.
pub open spec fn phase_us(s: FrameSample, phase: Phase) -> u64 {
    match phase {
        Phase::Drain => s.drain_us,
        Phase::Draw => s.draw_us,
        Phase::Tick => s.tick_us,
        Phase::Poll => s.poll_us,
        Phase::Key => s.key_us,
        Phase::Total => s.total_us,
    }
}

/// How long a part of a frame took.
fn phase_of(s: FrameSample, phase: Phase) -> (r: u64)
    ensures
        r == phase_us(s, phase),
{
    match phase {
        Phase::Drain => s.drain_us,
        Phase::Draw => s.draw_us,
        Phase::Tick => s.tick_us,
        Phase::Poll => s.poll_us,
        Phase::Key => s.key_us,
        Phase::Total => s.total_us,
    }
}

/// Percentiles of the times of one part, in microseconds.
#[derive(Clone, Copy, Debug, PartialEq, Eq, Structural)]
pub struct PhaseStats {
    pub p50: u64,
    pub p95: u64,
    pub p99: u64,
    pub max: u64,
}

/// The percentiles of every part.
#[derive(Debug)]
pub struct FrameSummary {
    pub phases: [(&'static str, Option<PhaseStats>); 6],
}

// -------------------------------------------------------------- percentiles

/// Whether the numbers never fall.
pub open spec fn ascending(v: Seq<u64>) -> bool {
    forall|i: int, j: int| 0 <= i < j < v.len() ==> v[i] <= v[j]
}

/// The place of a percentile by nearest rank: the smallest one such that `pct`
/// per cent of the numbers stand at or before it.
pub open spec fn rank(n: nat, pct: nat) -> int {
    let r = (pct * n + 99) / 100 - 1;
    if r < 0 {
        0
    } else if r >= n {
        n - 1
    } else {
        r
    }
}

/// A percentile of ascending numbers; zero where there are none.
pub open spec fn percentile_of(v: Seq<u64>, pct: nat) -> u64 {
    if v.len() == 0 {
        0
    } else {
        v[rank(v.len(), pct)]
    }
}

/// A percentile of ascending numbers by nearest rank; zero where there are none.
pub fn percentile(sorted: &[u64], pct: usize) -> (r: u64)
    requires
        pct * sorted@.len() <= usize::MAX,
    ensures
        r == percentile_of(sorted@, pct as nat),
{
    let n: usize = sorted.len();
    if n == 0 {
        return 0;
    }
    let product: usize = pct * n;
    let up: usize = if product % 100 == 0 {
        product / 100
    } else {
        product / 100 + 1
    };
    proof {
        assert(up == (product + 99) / 100);
    }
    let mut at: usize = if up == 0 {
        0
    } else {
        up - 1
    };
    if at > n - 1 {
        at = n - 1;
    }
    sorted[at]
}

/// Whether the stats are those of the numbers: percentiles of the same numbers
/// in ascending order, and the largest one.
pub open spec fn stats_of(values: Seq<u64>, stats: PhaseStats) -> bool {
    exists|sorted: Seq<u64>|
        {
            &&& #[trigger] ascending(sorted)
            &&& sorted.to_multiset() == values.to_multiset()
            &&& stats.p50 == percentile_of(sorted, 50)
            &&& stats.p95 == percentile_of(sorted, 95)
            &&& stats.p99 == percentile_of(sorted, 99)
            &&& stats.max == percentile_of(sorted, 100)
        }
}

/// Puts a number at its place among ascending ones.
fn insert_number(v: &mut Vec<u64>, x: u64)
    requires
        ascending(old(v)@),
    ensures
        ascending(final(v)@),
        final(v)@.to_multiset() == old(v)@.to_multiset().insert(x),
        final(v)@.len() == old(v)@.len() + 1,
{
    let ghost had = v@;
    let mut i: usize = 0;
    while i < v.len() && v[i] <= x
        invariant
            i <= v@.len(),
            v@ == had,
            forall|j: int| 0 <= j < i ==> had[j] <= x,
        decreases v.len() - i,
    {
        i += 1;
    }
    v.insert(i, x);
    proof {
        v@.to_multiset_ensures();
        assert(v@.remove(i as int) =~= had);
        assert(v@.contains(v@[i as int]));
        assert(had.to_multiset().insert(x) =~= v@.to_multiset());
    }
}

// --------------------------------------------------------------------- ring

/// The last frames.
#[derive(Debug)]
pub struct FrameProfile {
    samples: Vec<FrameSample>,
    idx: usize,
    count: usize,
}

impl FrameProfile {
    /// The ring is whole, and its first frames stand at its start.
    pub closed spec fn wf(self) -> bool {
        &&& self.samples@.len() == WINDOW
        &&& self.idx < WINDOW
        &&& self.count <= WINDOW
        &&& self.count < WINDOW ==> self.idx == self.count
    }

    /// The frames that are kept, the oldest first.
    pub closed spec fn frames(self) -> Seq<FrameSample> {
        if self.count < WINDOW {
            self.samples@.take(self.count as int)
        } else {
            self.samples@.skip(self.idx as int) + self.samples@.take(self.idx as int)
        }
    }

    /// A ring without frames.
    pub fn new() -> (r: FrameProfile)
        ensures
            r.wf(),
            r.frames() == Seq::<FrameSample>::empty(),
    {
        let mut samples: Vec<FrameSample> = Vec::new();
        while samples.len() < WINDOW
            invariant
                samples@.len() <= WINDOW,
            decreases WINDOW - samples.len(),
        {
            samples.push(FrameSample::zero());
        }
        let r = FrameProfile { samples, idx: 0, count: 0 };
        proof {
            assert(r.frames() =~= Seq::<FrameSample>::empty());
        }
        r
    }

    /// Keeps a frame; where the ring is full, in place of the oldest.
    pub fn record(&mut self, s: FrameSample)
        requires
            old(self).wf(),
        ensures
            final(self).wf(),
            final(self).frames() == (if old(self).frames().len() < WINDOW {
                old(self).frames().push(s)
            } else {
                old(self).frames().skip(1).push(s)
            }),
    {
        let ghost had = self.frames();
        self.samples.set(self.idx, s);
        self.idx = (self.idx + 1) % WINDOW;
        if self.count < WINDOW {
            self.count = self.count + 1;
        }
        proof {
            if had.len() < WINDOW {
                assert(self.frames() =~= had.push(s));
            } else {
                assert(self.frames() =~= had.skip(1).push(s));
            }
        }
    }

    /// The newest frame.
    pub fn latest(&self) -> (r: Option<FrameSample>)
        requires
            self.wf(),
        ensures
            r == (if self.frames().len() == 0 {
                None
            } else {
                Some(self.frames().last())
            }),
    {
        if self.count == 0 {
            None
        } else {
            let last: usize = (self.idx + WINDOW - 1) % WINDOW;
            proof {
                assert(self.frames().last() == self.samples@[last as int]);
            }
            Some(self.samples[last])
        }
    }

    /// How many frames are kept.
    pub fn frame_count(&self) -> (r: usize)
        requires
            self.wf(),
        ensures
            r == self.frames().len(),
            r <= WINDOW,
    {
        self.count
    }

    /// The most messages that any one frame took in.
    pub fn max_agent_msgs(&self) -> (r: u32)
        requires
            self.wf(),
        ensures
            forall|i: int| 0 <= i < self.frames().len() ==> (#[trigger] self.frames()[i]).agent_msg_count
                <= r,
            self.frames().len() == 0 ==> r == 0,
            self.frames().len() > 0 ==> exists|i: int|
                0 <= i < self.frames().len() && (#[trigger] self.frames()[i]).agent_msg_count == r,
    {
        let mut most: u32 = 0;
        let mut i: usize = 0;
        let ghost mut at: int = 0;
        while i < self.count
            invariant
                self.wf(),
                i <= self.count,
                0 <= at < WINDOW,
                i == 0 ==> most == 0,
                i > 0 ==> at < i && self.samples@[at].agent_msg_count == most,
                forall|j: int|
                    0 <= j < i ==> (#[trigger] self.samples@[j]).agent_msg_count <= most,
            decreases self.count - i,
        {
            if i == 0 || self.samples[i].agent_msg_count > most {
                most = self.samples[i].agent_msg_count;
                proof {
                    at = i as int;
                }
            }
            i += 1;
        }
        proof {
            let f = self.frames();
            assert forall|k: int| 0 <= k < f.len() implies (#[trigger] f[k]).agent_msg_count
                <= most by {
                let j = self.place(k);
                assert(f[k] == self.samples@[j]);
            }
            if f.len() > 0 {
                let k = if self.count < WINDOW || at < self.idx {
                    if self.count < WINDOW {
                        at
                    } else {
                        at + WINDOW - self.idx
                    }
                } else {
                    at - self.idx
                };
                assert(f[k] == self.samples@[at]);
            }
        }
        most
    }

    /// Where the frame `k` stands in the ring.
    spec fn place(self, k: int) -> int {
        if self.count < WINDOW {
            k
        } else if k + self.idx < WINDOW {
            k + self.idx
        } else {
            k + self.idx - WINDOW
        }
    }

    /// The times of one part, over all frames.
    pub open spec fn times(self, phase: Phase) -> Seq<u64> {
        self.frames().map_values(|s: FrameSample| phase_us(s, phase))
    }

    /// The percentiles of one part; none without a frame.
    pub fn collect(&self, phase: Phase) -> (r: Option<PhaseStats>)
        requires
            self.wf(),
        ensures
            match r {
                Some(stats) => self.frames().len() > 0 && stats_of(self.times(phase), stats),
                None => self.frames().len() == 0,
            },
    {
        if self.count == 0 {
            return None;
        }
        let mut values: Vec<u64> = Vec::new();
        let mut i: usize = 0;
        let ghost ring = Seq::new(
            self.count as nat,
            |j: int| phase_us(self.samples@[j], phase),
        );
        proof {
            ring.take(0).to_multiset_ensures();
            assert(ring.take(0) =~= values@);
        }
        while i < self.count
            invariant
                self.wf(),
                i <= self.count,
                ascending(values@),
                values@.len() == i,
                ring == Seq::new(self.count as nat, |j: int| phase_us(self.samples@[j], phase)),
                values@.to_multiset() == ring.take(i as int).to_multiset(),
            decreases self.count - i,
        {
            insert_number(&mut values, phase_of(self.samples[i], phase));
            proof {
                assert(ring.take(i + 1) =~= ring.take(i as int).push(ring[i as int]));
                ring.take(i as int).to_multiset_ensures();
            }
            i += 1;
        }
        proof {
            assert(ring.take(ring.len() as int) =~= ring);
            self.lemma_same_times(phase, ring);
            assert(rank(values@.len(), 100) == values@.len() - 1);
            assert(ascending(values@));
        }
        let n: usize = values.len();
        Some(
            PhaseStats {
                p50: percentile(values.as_slice(), 50),
                p95: percentile(values.as_slice(), 95),
                p99: percentile(values.as_slice(), 99),
                max: values[n - 1],
            },
        )
    }

    /// The ring holds the same times as the frames in order.
    proof fn lemma_same_times(self, phase: Phase, ring: Seq<u64>)
        requires
            self.wf(),
            ring == Seq::new(self.count as nat, |j: int| phase_us(self.samples@[j], phase)),
        ensures
            ring.to_multiset() == self.times(phase).to_multiset(),
    {
        let times = self.times(phase);
        if self.count < WINDOW {
            assert(times =~= ring);
        } else {
            let a = ring.take(self.idx as int);
            let b = ring.skip(self.idx as int);
            assert(ring =~= a + b);
            assert(times =~= b + a);
            vstd::seq_lib::lemma_multiset_commutative(a, b);
            vstd::seq_lib::lemma_multiset_commutative(b, a);
            assert(a.to_multiset().add(b.to_multiset()) =~= b.to_multiset().add(a.to_multiset()));
        }
    }

    /// The percentiles of every part.
    pub fn summary(&self) -> (r: FrameSummary)
        requires
            self.wf(),
        ensures
            summarizes(self, r),
    {
        FrameSummary {
            phases: [
                ("drain", self.collect(Phase::Drain)),
                ("draw", self.collect(Phase::Draw)),
                ("tick", self.collect(Phase::Tick)),
                ("poll", self.collect(Phase::Poll)),
                ("key", self.collect(Phase::Key)),
                ("total", self.collect(Phase::Total)),
            ],
        }
    }
}

/// The part of a frame at a place of the summary, and its name there.
pub open spec fn phase_at(i: int) -> (Phase, Seq<char>) {
    if i == 0 {
        (Phase::Drain, "drain"@)
    } else if i == 1 {
        (Phase::Draw, "draw"@)
    } else if i == 2 {
        (Phase::Tick, "tick"@)
    } else if i == 3 {
        (Phase::Poll, "poll"@)
    } else if i == 4 {
        (Phase::Key, "key"@)
    } else {
        (Phase::Total, "total"@)
    }
}

/// Whether a summary holds the percentiles of every part.
pub open spec fn summarizes(p: &FrameProfile, s: FrameSummary) -> bool {
    forall|i: int|
        0 <= i < 6 ==> {
            let (name, stats) = #[trigger] s.phases@[i];
            &&& name@ == phase_at(i).1
            &&& match stats {
                Some(st) => p.frames().len() > 0 && stats_of(p.times(phase_at(i).0), st),
                None => p.frames().len() == 0,
            }
        }
}

/// The percentiles of the same part never fall as the percentage grows.
pub proof fn law_percentiles_ascend(values: Seq<u64>, stats: PhaseStats)
    requires
        stats_of(values, stats),
    ensures
        stats.p50 <= stats.p95 <= stats.p99 <= stats.max,
{
    let sorted = choose|sorted: Seq<u64>|
        {
            &&& #[trigger] ascending(sorted)
            &&& sorted.to_multiset() == values.to_multiset()
            &&& stats.p50 == percentile_of(sorted, 50)
            &&& stats.p95 == percentile_of(sorted, 95)
            &&& stats.p99 == percentile_of(sorted, 99)
            &&& stats.max == percentile_of(sorted, 100)
        };
    let n = sorted.len();
    assert(rank(n, 50) <= rank(n, 95) <= rank(n, 99) <= rank(n, 100));
}

// ------------------------------------------------------------- milliseconds
//
// Milliseconds are shown as the double that is nearest to them prints with a
// fixed number of places: rounded from its exact value, a tie to the even digit.

/// 2 to the 52nd and 53rd: the bounds of a double's significand.
pub const LOW: u128 = 0x10_0000_0000_0000;

pub const HIGH: u128 = 0x20_0000_0000_0000;

/// The integer nearest to `n / d`, a tie to the even one.
pub open spec fn nearest(n: nat, d: nat) -> nat {
    let q = n / d;
    let r = n % d;
    if 2 * r < d || (2 * r == d && q % 2 == 0) {
        q
    } else {
        q + 1
    }
}

/// The power of two by which `n / d` is multiplied to reach the significand.
pub open spec fn raised(n: nat, d: nat, up: nat) -> nat
    decreases (if n * up < LOW * d { LOW * d - n * up } else { 0 }),
{
    if n > 0 && up > 0 && n * up < LOW * d {
        proof {
            assert(n * (2 * up) > n * up) by (nonlinear_arith)
                requires
                    n > 0,
                    up > 0,
            ;
        }
        raised(n, d, 2 * up)
    } else {
        up
    }
}

/// The power of two by which `n / d` is divided to reach the significand.
pub open spec fn lowered(n: nat, d: nat, down: nat) -> nat
    decreases (if n >= HIGH * (d * down) { n - HIGH * (d * down) + 1 } else { 0 }),
{
    if d > 0 && down > 0 && n >= HIGH * (d * down) {
        proof {
            assert(d * (2 * down) > d * down) by (nonlinear_arith)
                requires
                    d > 0,
                    down > 0,
            ;
        }
        lowered(n, d, 2 * down)
    } else {
        down
    }
}

/// The whole number that the double nearest to `us` is.
pub open spec fn as_double(us: nat) -> nat {
    let down = lowered(us, 1, 1);
    nearest(us, down) * down
}

/// The double nearest to a thousandth of `n`, times `unit`, as an integer.
pub open spec fn thousandth(n: nat, unit: nat) -> nat {
    if n == 0 {
        0
    } else {
        let up = raised(n, 1000, 1);
        let down = lowered(n, 1000, 1);
        nearest(nearest(n * up, 1000 * down) * unit * down, up)
    }
}

/// The integer nearest to `n / d`, a tie to the even one.
fn nearest_to(n: u128, d: u128) -> (r: u128)
    requires
        d > 0,
        n < u128::MAX,
    ensures
        r == nearest(n as nat, d as nat),
        r <= n + 1,
        r * d <= n + d,
{
    let q: u128 = n / d;
    let r: u128 = n % d;
    proof {
        assert(q <= n) by (nonlinear_arith)
            requires
                q == n / d,
                d > 0,
        ;
    }
    proof {
        assert(q * d <= n && (q + 1) * d <= n + d) by (nonlinear_arith)
            requires
                q == n / d,
                d > 0,
        ;
    }
    // Twice the remainder against the divisor, without doubling.
    let rest: u128 = d - r;
    if r < rest || (r == rest && q % 2 == 0) {
        q
    } else {
        q + 1
    }
}

/// The power of two by which `n / d` is multiplied to reach the significand.
fn raise(n: u128, d: u128) -> (up: u128)
    requires
        0 < n <= 0x1_0000_0000_0000_2000,
        0 < d <= 1000,
    ensures
        up == raised(n as nat, d as nat, 1),
        up > 0,
        up <= n * up,
        n * up <= 0x1_0000_0000_0000_2000,
{
    let mut up: u128 = 1;
    let ghost want = raised(n as nat, d as nat, 1);
    while n * up < LOW * d
        invariant
            0 < n <= 0x1_0000_0000_0000_2000,
            0 < d <= 1000,
            0 < up,
            n * up <= 0x1_0000_0000_0000_2000,
            want == raised(n as nat, d as nat, 1),
            want == raised(n as nat, d as nat, up as nat),
        decreases 0x1_0000_0000_0000_2000 - up,
    {
        proof {
            assert(n * (2 * up) == 2 * (n * up)) by (nonlinear_arith);
            assert(n * (2 * up) > n * up) by (nonlinear_arith)
                requires
                    n > 0,
                    up > 0,
            ;
            assert(2 * up <= n * (2 * up)) by (nonlinear_arith)
                requires
                    n > 0,
                    up > 0,
            ;
        }
        up = 2 * up;
    }
    proof {
        assert(up <= n * up) by (nonlinear_arith)
            requires
                n > 0,
                up > 0,
        ;
    }
    up
}

/// The power of two by which `n / d` is divided to reach the significand.
fn lower(n: u128, d: u128) -> (down: u128)
    requires
        n <= 0x1_0000_0000_0000_2000,
        0 < d <= 1000,
    ensures
        down == lowered(n as nat, d as nat, 1),
        0 < down <= 0x2000,
{
    let mut down: u128 = 1;
    let ghost want = lowered(n as nat, d as nat, 1);
    while n >= HIGH * (d * down)
        invariant
            n <= 0x1_0000_0000_0000_2000,
            0 < d <= 1000,
            0 < down <= 0x2000,
            d * down <= 0x80_0000,
            want == lowered(n as nat, d as nat, 1),
            want == lowered(n as nat, d as nat, down as nat),
        decreases 0x2000 - down,
    {
        proof {
            assert(d * (2 * down) == 2 * (d * down)) by (nonlinear_arith);
            assert(d * down >= down) by (nonlinear_arith)
                requires
                    d > 0,
                    down > 0,
            ;
            assert(d * down <= 1000 * down) by (nonlinear_arith)
                requires
                    d <= 1000,
                    down > 0,
            ;
        }
        down = 2 * down;
        proof {
            assert(d * down <= 1000 * down) by (nonlinear_arith)
                requires
                    d <= 1000,
                    down > 0,
            ;
        }
    }
    down
}

/// Milliseconds with one or two places, for microseconds.
pub open spec fn ms_text(us: u64, places: nat) -> Seq<char> {
    if places == 1 {
        let k = thousandth(as_double(us as nat), 10);
        decimal(k / 10) + "."@ + decimal(k % 10)
    } else {
        let k = thousandth(as_double(us as nat), 100);
        decimal(k / 100) + "."@ + decimal((k / 10) % 10) + decimal(k % 10)
    }
}

/// The double nearest to a thousandth of `us`, times `unit`, as an integer.
fn thousandth_of(us: u64, unit: u128) -> (k: u64)
    requires
        unit == 10 || unit == 100,
    ensures
        k == thousandth(as_double(us as nat), unit as nat),
{
    let lowered_by: u128 = lower(us as u128, 1);
    let whole: u128 = nearest_to(us as u128, lowered_by);
    let n: u128 = whole * lowered_by;
    if n == 0 {
        return 0;
    }
    let up: u128 = raise(n, 1000);
    let down: u128 = lower(n, 1000);
    let m: u128 = nearest_to(n * up, 1000 * down);
    proof {
        assert(m * unit * down <= 0x1_0000_0000_0000_2001 * 100 * 0x2000) by (nonlinear_arith)
            requires
                m <= 0x1_0000_0000_0000_2001,
                unit <= 100,
                down <= 0x2000,
        ;
        assert(m * unit <= 0x1_0000_0000_0000_2001 * 100) by (nonlinear_arith)
            requires
                m <= 0x1_0000_0000_0000_2001,
                unit <= 100,
        ;
    }
    let x: u128 = m * unit * down;
    let k: u128 = nearest_to(x, up);
    proof {
        assert(1000 * x <= (n * up + 1000 * down) * unit) by (nonlinear_arith)
            requires
                x == m * unit * down,
                m * (1000 * down) <= n * up + 1000 * down,
        ;
        assert(1000 * k <= n * unit + 1000 * down * unit + 1000) by (nonlinear_arith)
            requires
                k * up <= x + up,
                1000 * x <= (n * up + 1000 * down) * unit,
                up >= 1,
        ;
        assert(n * unit <= 0x1_0000_0000_0000_2000 * 100) by (nonlinear_arith)
            requires
                n <= 0x1_0000_0000_0000_2000,
                unit <= 100,
        ;
        assert(1000 * down * unit <= 1000 * 0x2000 * 100) by (nonlinear_arith)
            requires
                down <= 0x2000,
                unit <= 100,
        ;
    }
    k as u64
}

/// Appends milliseconds with one place.
fn push_ms1(s: &mut String, us: u64)
    ensures
        final(s)@ == old(s)@ + ms_text(us, 1),
{
    let k: u64 = thousandth_of(us, 10);
    let ghost start = s@;
    push_decimal(s, k / 10);
    s.append(".");
    push_decimal(s, k % 10);
    proof {
        assert(s@ =~= start + ms_text(us, 1));
    }
}

/// Appends milliseconds with two places.
fn push_ms2(s: &mut String, us: u64)
    ensures
        final(s)@ == old(s)@ + ms_text(us, 2),
{
    let k: u64 = thousandth_of(us, 100);
    let ghost start = s@;
    push_decimal(s, k / 100);
    s.append(".");
    push_decimal(s, (k / 10) % 10);
    push_decimal(s, k % 10);
    proof {
        assert(s@ =~= start + ms_text(us, 2));
    }
}

/// The percentiles of the first `n` parts that have any.
pub open spec fn phases_text(phases: Seq<(&'static str, Option<PhaseStats>)>, n: nat) -> Seq<char>
    decreases n,
{
    if n == 0 {
        Seq::empty()
    } else {
        let head = phases_text(phases, (n - 1) as nat);
        let (name, stats) = phases[n - 1];
        match stats {
            Some(s) => head + " "@ + name@ + "(p50="@ + ms_text(s.p50, 2) + "ms p95="@ + ms_text(
                s.p95,
                2,
            ) + "ms p99="@ + ms_text(s.p99, 2) + "ms max="@ + ms_text(s.max, 2) + "ms)"@,
            None => head,
        }
    }
}

impl FrameSummary {
    /// The summary in one line.
    pub fn format(&self, frames: usize) -> (r: String)
        ensures
            r@ == "frame_profile: frames="@ + decimal(frames as nat) + phases_text(
                self.phases@,
                6,
            ),
    {
        let mut out = "frame_profile: frames=".to_owned();
        push_decimal(&mut out, frames as u64);
        let ghost head = out@;
        let mut i: usize = 0;
        proof {
            assert(head + phases_text(self.phases@, 0) =~= head);
        }
        while i < 6
            invariant
                i <= 6,
                out@ == head + phases_text(self.phases@, i as nat),
            decreases 6 - i,
        {
            let ghost had = out@;
            let (name, stats) = self.phases[i];
            match stats {
                Some(s) => {
                    out.append(" ");
                    out.append(name);
                    out.append("(p50=");
                    push_ms2(&mut out, s.p50);
                    out.append("ms p95=");
                    push_ms2(&mut out, s.p95);
                    out.append("ms p99=");
                    push_ms2(&mut out, s.p99);
                    out.append("ms max=");
                    push_ms2(&mut out, s.max);
                    out.append("ms)");
                },
                None => {},
            }
            proof {
                assert(out@ =~= head + phases_text(self.phases@, (i + 1) as nat));
            }
            i += 1;
        }
        out
    }
}

/// The badge of the status bar: how long the latest frame took.
pub fn badge_text(latest: FrameSample) -> (r: String)
    ensures
        r@ == "draw "@ + ms_text(latest.draw_us, 1) + "ms · frame "@ + ms_text(latest.total_us, 1)
            + "ms"@,
{
    let mut s = "draw ".to_owned();
    push_ms1(&mut s, latest.draw_us);
    s.append("ms · frame ");
    push_ms1(&mut s, latest.total_us);
    s.append("ms");
    s
}

// --------------------------------------------------------------------- laws

/// A percentile is by nearest rank: the numbers up to its place are the first of which at
/// least that share of all there are.
pub proof fn law_percentile_is_nearest_rank(v: Seq<u64>, pct: nat) -> (k: int)
    requires
        v.len() > 0,
        0 < pct <= 100,
    ensures
        0 <= k < v.len(),
        percentile_of(v, pct) == v[k],
        100 * k < pct * v.len() <= 100 * (k + 1),
{
    let n = v.len();
    let k = rank(n, pct);
    assert(0 < pct * n <= 100 * n) by (nonlinear_arith)
        requires
            0 < pct <= 100,
            n > 0,
    ;
    k
}

/// The stats of some numbers are numbers among them: the largest, and those at or below
/// which half, 95 and 99 of a hundred stand.
pub proof fn law_stats_are_of_the_numbers(values: Seq<u64>, stats: PhaseStats)
    requires
        stats_of(values, stats),
        values.len() > 0,
    ensures
        values.contains(stats.max),
        forall|i: int| 0 <= i < values.len() ==> values[i] <= stats.max,
        exists|sorted: Seq<u64>, a: int, b: int, c: int|
            #![trigger sorted[a], sorted[b], sorted[c]]
            {
                let n = values.len();
                &&& ascending(sorted)
                &&& sorted.to_multiset() == values.to_multiset()
                &&& sorted.len() == n
                &&& stats.p50 == sorted[a] && 100 * a < 50 * n <= 100 * (a + 1)
                &&& stats.p95 == sorted[b] && 100 * b < 95 * n <= 100 * (b + 1)
                &&& stats.p99 == sorted[c] && 100 * c < 99 * n <= 100 * (c + 1)
            },
{
    let sorted = choose|sorted: Seq<u64>|
        {
            &&& #[trigger] ascending(sorted)
            &&& sorted.to_multiset() == values.to_multiset()
            &&& stats.p50 == percentile_of(sorted, 50)
            &&& stats.p95 == percentile_of(sorted, 95)
            &&& stats.p99 == percentile_of(sorted, 99)
            &&& stats.max == percentile_of(sorted, 100)
        };
    sorted.to_multiset_ensures();
    values.to_multiset_ensures();
    assert(sorted.len() == values.len());
    let a = law_percentile_is_nearest_rank(sorted, 50);
    let b = law_percentile_is_nearest_rank(sorted, 95);
    let c = law_percentile_is_nearest_rank(sorted, 99);
    let d = law_percentile_is_nearest_rank(sorted, 100);
    assert(d == sorted.len() - 1);
    assert(sorted.contains(stats.max)) by {
        assert(sorted[d] == stats.max);
    }
    assert(sorted.contains(stats.max) <==> sorted.to_multiset().count(stats.max) > 0);
    assert(values.contains(stats.max) <==> values.to_multiset().count(stats.max) > 0);
    assert forall|i: int| 0 <= i < values.len() implies values[i] <= stats.max by {
        let x = values[i];
        assert(values.contains(x));
        assert(values.contains(x) <==> values.to_multiset().count(x) > 0);
        assert(sorted.contains(x) <==> sorted.to_multiset().count(x) > 0);
        let j = choose|j: int| 0 <= j < sorted.len() && sorted[j] == x;
        if j < d {
            assert(sorted[j] <= sorted[d]);
        }
    }
    assert(stats.p50 == sorted[a] && stats.p95 == sorted[b] && stats.p99 == sorted[c]);
}

/// Each part of a frame is timed by its own number, and so is each frame of the ring.
pub proof fn law_parts_are_timed_apart(p: FrameProfile, i: int)
    requires
        0 <= i < p.frames().len(),
    ensures
        p.times(Phase::Drain)[i] == p.frames()[i].drain_us,
        p.times(Phase::Draw)[i] == p.frames()[i].draw_us,
        p.times(Phase::Tick)[i] == p.frames()[i].tick_us,
        p.times(Phase::Poll)[i] == p.frames()[i].poll_us,
        p.times(Phase::Key)[i] == p.frames()[i].key_us,
        p.times(Phase::Total)[i] == p.frames()[i].total_us,
        p.times(Phase::Draw).len() == p.frames().len(),
{
}

/// Every part stands in a summary under its own name.
pub proof fn law_summary_names_each_part(p: &FrameProfile, s: FrameSummary)
    requires
        summarizes(p, s),
        p.frames().len() > 0,
    ensures
        s.phases@[0].0@ == "drain"@ && s.phases@[0].1 is Some && stats_of(
            p.times(Phase::Drain),
            s.phases@[0].1->0,
        ),
        s.phases@[1].0@ == "draw"@ && s.phases@[1].1 is Some && stats_of(
            p.times(Phase::Draw),
            s.phases@[1].1->0,
        ),
        s.phases@[2].0@ == "tick"@ && s.phases@[2].1 is Some && stats_of(
            p.times(Phase::Tick),
            s.phases@[2].1->0,
        ),
        s.phases@[3].0@ == "poll"@ && s.phases@[3].1 is Some && stats_of(
            p.times(Phase::Poll),
            s.phases@[3].1->0,
        ),
        s.phases@[4].0@ == "key"@ && s.phases@[4].1 is Some && stats_of(
            p.times(Phase::Key),
            s.phases@[4].1->0,
        ),
        s.phases@[5].0@ == "total"@ && s.phases@[5].1 is Some && stats_of(
            p.times(Phase::Total),
            s.phases@[5].1->0,
        ),
{
    let a = s.phases@[0];
    let b = s.phases@[1];
    let c = s.phases@[2];
    let d = s.phases@[3];
    let e = s.phases@[4];
    let f = s.phases@[5];
}

/// What is nearest is off by half at most.
pub proof fn law_nearest_is_off_by_half(n: nat, d: nat)
    requires
        d > 0,
    ensures
        2 * n - d <= 2 * (nearest(n, d) * d) <= 2 * n + d,
{
    let q = n / d;
    let r = n % d;
    assert(n == q * d + r && 0 <= r < d) by (nonlinear_arith)
        requires
            d > 0,
            q == n / d,
            r == n % d,
    ;
    assert((q + 1) * d == q * d + d) by (nonlinear_arith);
}

proof fn lemma_raised(n: nat, d: nat, up: nat)
    requires
        n > 0,
        up > 0,
    ensures
        n * raised(n, d, up) >= LOW * d,
        raised(n, d, up) > 0,
    decreases (if n * up < LOW * d { LOW * d - n * up } else { 0 }),
{
    if n * up < LOW * d {
        assert(n * (2 * up) > n * up) by (nonlinear_arith)
            requires
                n > 0,
                up > 0,
        ;
        lemma_raised(n, d, 2 * up);
    }
}

/// The milliseconds that are shown are nearest to what was measured: for times of under
/// twelve days, in tenths or hundredths of a millisecond, they are off by half of the last
/// place at most.
pub proof fn law_shown_time_is_nearest(us: u64, unit: nat)
    requires
        us < 0x100_0000_0000,
        unit == 10 || unit == 100,
    ensures
        us * unit - 500 <= 1000 * thousandth(as_double(us as nat), unit) <= us * unit + 500,
{
    let n = us as nat;
    assert(lowered(n, 1, 1) == 1);
    assert(nearest(n, 1) == n);
    assert(as_double(n) == n);
    if n > 0 {
        let up = raised(n, 1000, 1);
        lemma_raised(n, 1000, 1);
        assert(lowered(n, 1000, 1) == 1);
        assert(up > 100_000) by (nonlinear_arith)
            requires
                n * up >= 0x10_0000_0000_0000 * 1000,
                0 < n < 0x100_0000_0000,
        ;
        let m = nearest(n * up, 1000 * 1);
        let k = nearest(m * unit * 1, up);
        law_nearest_is_off_by_half(n * up, 1000);
        law_nearest_is_off_by_half(m * unit, up);
        assert(m * unit * 1 == m * unit) by (nonlinear_arith);
        assert(thousandth(n, unit) == k);
        // 1000 * up * k lies within 500 * up + 500 * unit of n * up * unit.
        let x = m * unit;
        assert(2 * (1000 * x) <= 2 * (n * up * unit) + 1000 * unit && 2 * (1000 * x) >= 2 * (n * up
            * unit) - 1000 * unit) by (nonlinear_arith)
            requires
                x == m * unit,
                2 * (n * up) - 1000 <= 2 * (m * 1000) <= 2 * (n * up) + 1000,
        ;
        let err = 1000 * k - n * unit;
        assert(2 * (err * up) <= 1000 * up + 1000 * unit && 2 * (err * up) >= -(1000 * up) - 1000
            * unit) by (nonlinear_arith)
            requires
                err == 1000 * k - n * unit,
                2 * x - up <= 2 * (k * up) <= 2 * x + up,
                2 * (1000 * x) <= 2 * (n * up * unit) + 1000 * unit,
                2 * (1000 * x) >= 2 * (n * up * unit) - 1000 * unit,
        ;
        assert(err <= 500 && err >= -500) by (nonlinear_arith)
            requires
                2 * (err * up) <= 1000 * up + 1000 * unit,
                2 * (err * up) >= -(1000 * up) - 1000 * unit,
                unit <= 100,
                up > 100_000,
        ;
    }
}

/// Whole milliseconds are shown as they are, with zeros behind the point.
pub proof fn law_whole_milliseconds_are_exact(ms: nat)
    requires
        ms < 0x1000_0000,
    ensures
        thousandth(as_double((1000 * ms) as nat), 10) == 10 * ms,
        thousandth(as_double((1000 * ms) as nat), 100) == 100 * ms,
{
    law_shown_time_is_nearest((1000 * ms) as u64, 10);
    law_shown_time_is_nearest((1000 * ms) as u64, 100);
}

/// A time is shown with its milliseconds before the point and as many digits behind it as
/// were asked for.
pub proof fn law_places_behind_the_point(us: u64)
    ensures
        ({
            let a = thousandth(as_double(us as nat), 10);
            let b = thousandth(as_double(us as nat), 100);
            &&& ms_text(us, 1).len() == decimal(a / 10).len() + 2
            &&& ms_text(us, 1).last() == decimal(a % 10)[0]
            &&& ms_text(us, 1)[decimal(a / 10).len() as int] == '.'
            &&& ms_text(us, 2).len() == decimal(b / 100).len() + 3
            &&& ms_text(us, 2).last() == decimal(b % 10)[0]
            &&& ms_text(us, 2)[decimal(b / 100).len() as int] == '.'
            &&& ms_text(us, 2).take(decimal(b / 100).len() as int) == decimal(b / 100)
            &&& ms_text(us, 1).take(decimal(a / 10).len() as int) == decimal(a / 10)
        }),
{
    reveal_strlit(".");
    let a = thousandth(as_double(us as nat), 10);
    let b = thousandth(as_double(us as nat), 100);
    assert(decimal(a % 10).len() == 1 && decimal(b % 10).len() == 1 && decimal((b / 10) % 10).len()
        == 1);
    assert(ms_text(us, 2).take(decimal(b / 100).len() as int) =~= decimal(b / 100));
    assert(ms_text(us, 1).take(decimal(a / 10).len() as int) =~= decimal(a / 10));
}

/// A summary in words tells every part that was timed, in order, with its own percentiles,
/// and nothing of a part that was not.
pub proof fn law_summary_tells_every_part(
    phases: Seq<(&'static str, Option<PhaseStats>)>,
    n: nat,
)
    requires
        n < phases.len(),
    ensures
        phases_text(phases, 0).len() == 0,
        phases[n as int].1 is None ==> phases_text(phases, n + 1) == phases_text(phases, n),
        phases[n as int].1 matches Some(s) ==> exists|a: Seq<char>, b: Seq<char>, c: Seq<char>|
            #![trigger a + b + c]
            phases_text(phases, n + 1) == phases_text(phases, n) + (" "@ + phases[n as int].0@
                + "(p50="@ + ms_text(s.p50, 2)) + a + ("p95="@ + ms_text(s.p95, 2)) + b + ("p99="@
                + ms_text(s.p99, 2)) + c + ("max="@ + ms_text(s.max, 2) + "ms)"@),
{
    if let Some(s) = phases[n as int].1 {
        reveal_strlit("ms p95=");
        reveal_strlit("ms p99=");
        reveal_strlit("ms max=");
        reveal_strlit("p95=");
        reveal_strlit("p99=");
        reveal_strlit("max=");
        let gap = seq!['m', 's', ' '];
        assert("ms p95="@ =~= gap + "p95="@);
        assert("ms p99="@ =~= gap + "p99="@);
        assert("ms max="@ =~= gap + "max="@);
        let want = phases_text(phases, n) + (" "@ + phases[n as int].0@ + "(p50="@ + ms_text(
            s.p50,
            2,
        )) + gap + ("p95="@ + ms_text(s.p95, 2)) + gap + ("p99="@ + ms_text(s.p99, 2)) + gap + (
        "max="@ + ms_text(s.max, 2) + "ms)"@);
        assert(phases_text(phases, n + 1) =~= want);
        let _ = gap + gap + gap;
        assert(exists|a: Seq<char>, b: Seq<char>, c: Seq<char>|
            #![trigger a + b + c]
            phases_text(phases, n + 1) == phases_text(phases, n) + (" "@ + phases[n as int].0@
                + "(p50="@ + ms_text(s.p50, 2)) + a + ("p95="@ + ms_text(s.p95, 2)) + b + ("p99="@
                + ms_text(s.p99, 2)) + c + ("max="@ + ms_text(s.max, 2) + "ms)"@)) by {
            assert(gap + gap + gap == gap + gap + gap);
        }
    }
}

} // verus!
