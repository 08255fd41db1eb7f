//! Slot-continuity tracking and reconnect backoff.

use std::time::{Duration, Instant};
use vstd::arithmetic::power2::{
    lemma2_to64, lemma2_to64_rest, lemma_pow2_pos, lemma_pow2_strictly_increases, lemma_pow2_unfold, pow2,
};
use vstd::bits::lemma_u64_shl_is_mul;
use vstd::prelude::*;

use crate::clock::{duration_between, duration_longer, duration_nanos, instant_gap, instant_now};

verus! {

/// The counters of a [`StreamHealth`], as plain numbers.
pub struct HealthCounters {
    pub last_slot: u64,
    pub max_observed_gap: u64,
    pub consecutive_clean: u64,
    pub total_updates: u64,
    pub total_gaps: u64,
}

impl HealthCounters {
    /// The counters of a tracker that has seen nothing yet.
    pub open spec fn initial() -> HealthCounters {
        HealthCounters {
            last_slot: 0,
            max_observed_gap: 0,
            consecutive_clean: 0,
            total_updates: 0,
            total_gaps: 0,
        }
    }

    /// Consistency of the counters with one another: every update is
    /// either a gap or clean, the clean run started after the last gap,
    /// a gap was seen exactly when the largest gap is positive, and no gap
    /// is wider than the highest slot seen.
    pub open spec fn wf(self) -> bool {
        &&& self.total_gaps + self.consecutive_clean <= self.total_updates
        &&& (self.total_gaps == 0) == (self.max_observed_gap == 0)
        &&& self.max_observed_gap <= self.last_slot
    }

    /// Whether an update for `slot` reveals skipped slots: a slot was seen
    /// before and `slot` lies more than one past the highest one.
    pub open spec fn reveals_gap(self, slot: u64) -> bool {
        self.last_slot > 0 && slot > self.last_slot + 1
    }

    /// The number of slots skipped before `slot`.
    pub open spec fn gap_before(self, slot: u64) -> int {
        slot - self.last_slot - 1
    }

    /// Whether the counters can take one more update without overflow.
    pub open spec fn has_room(self) -> bool {
        self.total_updates < u64::MAX
    }

    /// The counters after an update for `slot`.
    pub open spec fn after_update(self, slot: u64) -> HealthCounters {
        if self.reveals_gap(slot) {
            HealthCounters {
                last_slot: slot,
                max_observed_gap: if self.gap_before(slot) > self.max_observed_gap {
                    self.gap_before(slot) as u64
                } else {
                    self.max_observed_gap
                },
                consecutive_clean: 0,
                total_updates: (self.total_updates + 1) as u64,
                total_gaps: (self.total_gaps + 1) as u64,
            }
        } else {
            HealthCounters {
                last_slot: if slot > self.last_slot { slot } else { self.last_slot },
                max_observed_gap: self.max_observed_gap,
                consecutive_clean: (self.consecutive_clean + 1) as u64,
                total_updates: (self.total_updates + 1) as u64,
                total_gaps: self.total_gaps,
            }
        }
    }
}

/// Tracks slot continuity, gaps, and freshness of incoming updates.
#[derive(Debug)]
pub struct StreamHealth {
    last_slot: u64,
    last_update: Instant,
    max_observed_gap: u64,
    consecutive_clean: u64,
    total_updates: u64,
    total_gaps: u64,
}

impl View for StreamHealth {
    type V = HealthCounters;

    closed spec fn view(&self) -> HealthCounters {
        HealthCounters {
            last_slot: self.last_slot,
            max_observed_gap: self.max_observed_gap,
            consecutive_clean: self.consecutive_clean,
            total_updates: self.total_updates,
            total_gaps: self.total_gaps,
        }
    }
}

impl StreamHealth {
    #[verifier::type_invariant]
    spec fn counters_consistent(self) -> bool {
        self@.wf()
    }

    /// The instant of the last update (of construction before any).
    pub closed spec fn spec_last_update(&self) -> Instant {
        self.last_update
    }

    /// A tracker that has seen no update; its clock starts at the reading
    /// of the clock taken now (see [`StreamHealth::started_at`]).
    pub fn new() -> (h: Self)
        ensures
            h@ == HealthCounters::initial(),
            h@.wf(),
    {
        Self::started_at(instant_now())
    }

    /// A tracker that has seen no update, its clock started at `now`.
    pub fn started_at(now: Instant) -> (h: Self)
        ensures
            h@ == HealthCounters::initial(),
            h@.wf(),
            h.spec_last_update() == now,
    {
        StreamHealth {
            last_slot: 0,
            last_update: now,
            max_observed_gap: 0,
            consecutive_clean: 0,
            total_updates: 0,
            total_gaps: 0,
        }
    }

    /// Records an update for `slot`; returns true if this update revealed a
    /// slot gap. The clock of the last update restarts at the reading of
    /// the clock taken now (see [`StreamHealth::record_update_at`]).
    pub fn record_update(&mut self, slot: u64) -> (gap: bool)
        requires
            old(self)@.has_room(),
        ensures
            gap == old(self)@.reveals_gap(slot),
            final(self)@ == old(self)@.after_update(slot),
            final(self)@.wf(),
    {
        self.record_update_at(slot, instant_now())
    }

    /// Records an update for `slot` received at `now`; returns true if this
    /// update revealed a slot gap. The clock of the last update restarts at
    /// `now`.
    pub fn record_update_at(&mut self, slot: u64, now: Instant) -> (gap: bool)
        requires
            old(self)@.has_room(),
        ensures
            gap == old(self)@.reveals_gap(slot),
            final(self)@ == old(self)@.after_update(slot),
            final(self)@.wf(),
            final(self).spec_last_update() == now,
    {
        proof {
            use_type_invariant(&*self);
        }
        let gap = self.last_slot > 0 && slot > self.last_slot && slot - self.last_slot > 1;
        let mut max_observed_gap = self.max_observed_gap;
        let mut total_gaps = self.total_gaps;
        let mut consecutive_clean = self.consecutive_clean;
        if gap {
            let g = slot - self.last_slot - 1;
            if g > max_observed_gap {
                max_observed_gap = g;
            }
            total_gaps = total_gaps + 1;
            consecutive_clean = 0;
        } else {
            consecutive_clean = consecutive_clean + 1;
        }
        let last_slot = if slot > self.last_slot { slot } else { self.last_slot };
        *self = StreamHealth {
            last_slot,
            last_update: now,
            max_observed_gap,
            consecutive_clean,
            total_updates: self.total_updates + 1,
            total_gaps,
        };
        gap
    }

    /// Whether more than `max_age` has passed since the last update: the
    /// time from the last update to a reading `now` of the clock taken by
    /// the call [`exceeds`] `max_age`. Which reading the call takes depends
    /// on when it is made.
    pub fn is_stale(&self, max_age: Duration) -> (stale: bool)
        ensures
            exists|now: Instant|
                #![trigger instant_gap(now, self.spec_last_update())]
                stale == (duration_nanos(instant_gap(now, self.spec_last_update())) > duration_nanos(
                    max_age,
                )),
    {
        let now = instant_now();
        let elapsed = duration_between(&now, &self.last_update);
        let stale = exceeds(&elapsed, &max_age);
        assert(stale == (duration_nanos(instant_gap(now, self.spec_last_update())) > duration_nanos(
            max_age,
        )));
        stale
    }

    pub fn last_slot(&self) -> (s: u64)
        ensures
            s == self@.last_slot,
    {
        self.last_slot
    }

    pub fn total_gaps(&self) -> (n: u64)
        ensures
            n == self@.total_gaps,
    {
        self.total_gaps
    }

    pub fn total_updates(&self) -> (n: u64)
        ensures
            n == self@.total_updates,
    {
        self.total_updates
    }

    pub fn max_observed_gap(&self) -> (g: u64)
        ensures
            g == self@.max_observed_gap,
    {
        self.max_observed_gap
    }

    pub fn consecutive_clean(&self) -> (n: u64)
        ensures
            n == self@.consecutive_clean,
    {
        self.consecutive_clean
    }

    pub fn last_update(&self) -> (t: Instant)
        ensures
            t == self.spec_last_update(),
    {
        self.last_update
    }

    /// The counters are consistent with one another (see
    /// [`HealthCounters::wf`]) for every tracker.
    pub fn counters_are_consistent(&self)
        ensures
            self@.wf(),
    {
        proof {
            use_type_invariant(self);
        }
    }
}

impl Default for StreamHealth {
    fn default() -> (h: Self)
        ensures
            h@ == HealthCounters::initial(),
    {
        Self::new()
    }
}

/// Whether `elapsed` is longer than `max_age`: the staleness test.
pub fn exceeds(elapsed: &Duration, max_age: &Duration) -> (r: bool)
    ensures
        r == (duration_nanos(*elapsed) > duration_nanos(*max_age)),
{
    duration_longer(elapsed, max_age)
}

/// Gap detection: an update reports a gap exactly when a positive slot was
/// seen before and the new slot lies more than one past the highest one;
/// then the gap counter grows by one, the clean run restarts, and the
/// largest gap becomes at least the number of slots skipped. Otherwise the
/// gap counters stay and the clean run grows by one.
pub proof fn lemma_gap_exactly_when_slots_skipped(c: HealthCounters, slot: u64)
    requires
        c.wf(),
        c.has_room(),
    ensures
        c.reveals_gap(slot) <==> (c.last_slot > 0 && slot > c.last_slot + 1),
        (c.last_slot > 0 && slot > c.last_slot + 1) ==> {
            let a = c.after_update(slot);
            &&& a.total_gaps == c.total_gaps + 1
            &&& a.consecutive_clean == 0
            &&& a.max_observed_gap >= slot - c.last_slot - 1
            &&& a.max_observed_gap >= c.max_observed_gap
            &&& (a.max_observed_gap == slot - c.last_slot - 1 || a.max_observed_gap == c.max_observed_gap)
            &&& a.last_slot == slot
        },
        !(c.last_slot > 0 && slot > c.last_slot + 1) ==> {
            let a = c.after_update(slot);
            &&& a.total_gaps == c.total_gaps
            &&& a.consecutive_clean == c.consecutive_clean + 1
            &&& a.max_observed_gap == c.max_observed_gap
            &&& a.last_slot == (if slot > c.last_slot { slot } else { c.last_slot })
        },
        c.after_update(slot).total_updates == c.total_updates + 1,
{
}

/// Recording an update keeps the counters consistent with one another.
pub proof fn lemma_update_keeps_counters_consistent(c: HealthCounters, slot: u64)
    requires
        c.wf(),
        c.has_room(),
    ensures
        c.after_update(slot).wf(),
{
}

/// An update for a slot at most one past the highest slot seen reveals no
/// gap: a stream of consecutive (or repeated, or older) slots is clean.
pub proof fn lemma_consecutive_slot_is_clean(c: HealthCounters, slot: u64)
    requires
        slot <= c.last_slot + 1,
    ensures
        !c.reveals_gap(slot),
        c.has_room() ==> c.after_update(slot).total_gaps == c.total_gaps,
{
}

/// The highest slot seen never decreases, and every update is counted once.
pub proof fn lemma_update_is_monotone(c: HealthCounters, slot: u64)
    requires
        c.wf(),
        c.has_room(),
    ensures
        c.after_update(slot).last_slot >= c.last_slot,
        c.after_update(slot).last_slot >= slot,
        c.after_update(slot).total_updates == c.total_updates + 1,
        c.after_update(slot).max_observed_gap >= c.max_observed_gap,
        c.after_update(slot).total_gaps >= c.total_gaps,
{
}

/// The counters after recording `slots` in order, starting from `c`.
pub open spec fn replay(c: HealthCounters, slots: Seq<u64>) -> HealthCounters
    decreases slots.len(),
{
    if slots.len() == 0 {
        c
    } else {
        replay(c, slots.drop_last()).after_update(slots.last())
    }
}

/// Whether the update for `slots[i]` reported a gap, when `slots` are
/// recorded in order starting from `c`.
pub open spec fn reported_gap(c: HealthCounters, slots: Seq<u64>, i: int) -> bool {
    replay(c, slots.take(i)).reveals_gap(slots[i])
}

/// The number of slots skipped before `slots[i]` when it is recorded.
pub open spec fn reported_gap_size(c: HealthCounters, slots: Seq<u64>, i: int) -> int {
    replay(c, slots.take(i)).gap_before(slots[i])
}

/// How many of the updates for `slots` reported a gap.
pub open spec fn gaps_reported(c: HealthCounters, slots: Seq<u64>) -> nat
    decreases slots.len(),
{
    if slots.len() == 0 {
        0
    } else {
        gaps_reported(c, slots.drop_last()) + if reported_gap(c, slots, slots.len() - 1) {
            1nat
        } else {
            0nat
        }
    }
}

/// How many updates for `slots` came since the last one that reported a
/// gap (all of them when none did).
pub open spec fn updates_since_gap(c: HealthCounters, slots: Seq<u64>) -> nat
    decreases slots.len(),
{
    if slots.len() == 0 {
        0
    } else if reported_gap(c, slots, slots.len() - 1) {
        0
    } else {
        updates_since_gap(c, slots.drop_last()) + 1
    }
}

proof fn lemma_reported_gap_prefix(c: HealthCounters, slots: Seq<u64>, i: int)
    requires
        0 <= i < slots.len() - 1,
    ensures
        reported_gap(c, slots, i) == reported_gap(c, slots.drop_last(), i),
        reported_gap_size(c, slots, i) == reported_gap_size(c, slots.drop_last(), i),
{
    assert(slots.take(i) =~= slots.drop_last().take(i));
}

/// What a tracker's counters mean, for any run of slots recorded from a
/// fresh tracker: the update counter counts the updates made, the gap
/// counter counts the updates that reported a gap, the clean run counts
/// the updates since the last gap, the largest gap is the largest number
/// of slots skipped by a reported gap (0 without one), and the highest slot
/// is the largest slot recorded (0 before any).
pub proof fn lemma_counters_summarise_updates(slots: Seq<u64>)
    requires
        slots.len() <= u64::MAX,
    ensures
        ({
            let c = HealthCounters::initial();
            let r = replay(c, slots);
            &&& r.wf()
            &&& r.total_updates == slots.len()
            &&& r.total_gaps == gaps_reported(c, slots)
            &&& r.consecutive_clean == updates_since_gap(c, slots)
            &&& forall|i: int|
                0 <= i < slots.len() && #[trigger] reported_gap(c, slots, i) ==> reported_gap_size(
                    c,
                    slots,
                    i,
                ) <= r.max_observed_gap
            &&& r.total_gaps > 0 ==> exists|i: int|
                0 <= i < slots.len() && #[trigger] reported_gap(c, slots, i) && reported_gap_size(
                    c,
                    slots,
                    i,
                ) == r.max_observed_gap
            &&& r.total_gaps == 0 ==> r.max_observed_gap == 0
            &&& forall|i: int| 0 <= i < slots.len() ==> #[trigger] slots[i] <= r.last_slot
            &&& slots.len() > 0 ==> exists|i: int| 0 <= i < slots.len() && #[trigger] slots[i] == r.last_slot
            &&& slots.len() == 0 ==> r.last_slot == 0
        }),
    decreases slots.len(),
{
    let c = HealthCounters::initial();
    if slots.len() > 0 {
        let prev = slots.drop_last();
        let n = slots.len() - 1;
        lemma_counters_summarise_updates(prev);
        let p = replay(c, prev);
        assert(slots.take(n) =~= prev);
        lemma_update_keeps_counters_consistent(p, slots.last());
        let r = replay(c, slots);
        assert forall|i: int|
            0 <= i < slots.len() && #[trigger] reported_gap(c, slots, i) implies reported_gap_size(
                c,
                slots,
                i,
            ) <= r.max_observed_gap by {
            if i < n {
                lemma_reported_gap_prefix(c, slots, i);
                assert(reported_gap(c, prev, i));
            }
        }
        if r.total_gaps > 0 {
            if reported_gap(c, slots, n) && reported_gap_size(c, slots, n) > p.max_observed_gap {
                assert(reported_gap_size(c, slots, n) == r.max_observed_gap);
            } else {
                assert(p.total_gaps > 0);
                let j = choose|j: int|
                    0 <= j < prev.len() && #[trigger] reported_gap(c, prev, j) && reported_gap_size(
                        c,
                        prev,
                        j,
                    ) == p.max_observed_gap;
                lemma_reported_gap_prefix(c, slots, j);
                assert(reported_gap(c, slots, j));
            }
        }
        assert forall|i: int| 0 <= i < slots.len() implies #[trigger] slots[i] <= r.last_slot by {
            if i < n {
                assert(slots[i] == prev[i]);
            }
        }
        if slots.last() >= p.last_slot {
            assert(slots[n] == r.last_slot);
        } else {
            assert(prev.len() > 0);
            let j = choose|j: int| 0 <= j < prev.len() && #[trigger] prev[j] == p.last_slot;
            assert(slots[j] == r.last_slot);
        }
    }
}

// ---------------------------------------------------------------------------

/// The state of a [`ReconnectPolicy`], as plain numbers.
pub struct BackoffModel {
    pub attempt: u32,
    pub base_ms: u64,
    pub max_ms: u64,
}

/// The number of doublings applied at a given attempt: the exponent stops
/// growing after ten attempts.
pub open spec fn doublings(attempt: u32) -> nat {
    if attempt < 10 { attempt as nat } else { 10 }
}

/// The uncapped delay bound at `attempt`: `base_ms * 2^min(attempt, 10)`.
pub open spec fn uncapped_bound(base_ms: u64, attempt: u32) -> int {
    base_ms * pow2(doublings(attempt))
}

/// The bound at `attempt`, capped at `max_ms`.
pub open spec fn capped_bound(base_ms: u64, max_ms: u64, attempt: u32) -> int {
    if max_ms <= uncapped_bound(base_ms, attempt) {
        max_ms as int
    } else {
        uncapped_bound(base_ms, attempt)
    }
}

/// The delay handed out at `attempt`: the capped bound.
pub open spec fn backoff_delay(base_ms: u64, max_ms: u64, attempt: u32) -> int {
    capped_bound(base_ms, max_ms, attempt)
}

impl BackoffModel {
    /// Whether the attempt counter can count one more attempt.
    pub open spec fn can_advance(self) -> bool {
        self.attempt < u32::MAX
    }
}

/// Exponential backoff with cap, for reconnect attempts.
#[derive(Debug, Clone)]
pub struct ReconnectPolicy {
    attempt: u32,
    base_ms: u64,
    max_ms: u64,
}

impl View for ReconnectPolicy {
    type V = BackoffModel;

    closed spec fn view(&self) -> BackoffModel {
        BackoffModel { attempt: self.attempt, base_ms: self.base_ms, max_ms: self.max_ms }
    }
}

impl ReconnectPolicy {
    /// Default bounds: delays run from 100 ms up to a 10 s cap.
    pub fn new() -> (p: Self)
        ensures
            p@ == (BackoffModel { attempt: 0, base_ms: 100, max_ms: 10_000 }),
    {
        ReconnectPolicy { attempt: 0, base_ms: 100, max_ms: 10_000 }
    }

    pub fn with_bounds(base_ms: u64, max_ms: u64) -> (p: Self)
        ensures
            p@ == (BackoffModel { attempt: 0, base_ms, max_ms }),
    {
        ReconnectPolicy { attempt: 0, base_ms, max_ms }
    }

    /// The delay before the next reconnect attempt:
    /// `min(max_ms, base_ms * 2^min(attempt, 10))`; counts the attempt.
    pub fn next_delay_ms(&mut self) -> (d: u64)
        requires
            old(self)@.can_advance(),
        ensures
            d == backoff_delay(old(self)@.base_ms, old(self)@.max_ms, old(self)@.attempt),
            final(self)@ == (BackoffModel { attempt: (old(self)@.attempt + 1) as u32, ..old(self)@ }),
    {
        let shift: u64 = if self.attempt < 10 { self.attempt as u64 } else { 10 };
        proof {
            lemma_pow2_pos(shift as nat);
            lemma_pow2_strictly_increases(shift as nat, 64);
            lemma2_to64();
            lemma2_to64_rest();
            lemma_u64_shl_is_mul(1, shift);
        }
        let factor: u64 = 1u64 << shift;
        assert(factor == pow2(shift as nat));
        // The bound saturates instead of overflowing: past `u64::MAX` it is
        // above every cap anyway.
        let uncapped: u64 = match self.base_ms.checked_mul(factor) {
            Some(product) => product,
            None => u64::MAX,
        };
        let cap: u64 = if self.max_ms <= uncapped { self.max_ms } else { uncapped };
        self.attempt = self.attempt + 1;
        cap
    }

    pub fn reset(&mut self)
        ensures
            final(self)@ == (BackoffModel { attempt: 0, ..old(self)@ }),
    {
        self.attempt = 0;
    }

    pub fn attempt(&self) -> (a: u32)
        ensures
            a == self@.attempt,
    {
        self.attempt
    }

    pub fn base_ms(&self) -> (b: u64)
        ensures
            b == self@.base_ms,
    {
        self.base_ms
    }

    pub fn max_ms(&self) -> (m: u64)
        ensures
            m == self@.max_ms,
    {
        self.max_ms
    }
}

impl Default for ReconnectPolicy {
    fn default() -> (p: Self)
        ensures
            p@ == (BackoffModel { attempt: 0, base_ms: 100, max_ms: 10_000 }),
    {
        Self::new()
    }
}

/// The policy after `n` calls of [`ReconnectPolicy::next_delay_ms`] from
/// `m`.
pub open spec fn after_delays(m: BackoffModel, n: nat) -> BackoffModel
    decreases n,
{
    if n == 0 {
        m
    } else {
        let p = after_delays(m, (n - 1) as nat);
        BackoffModel { attempt: (p.attempt + 1) as u32, ..p }
    }
}

/// The attempt counter counts the delays handed out since construction or
/// the last reset (both leave it at 0); the bounds never change.
pub proof fn lemma_attempt_counts_delays(m: BackoffModel, n: nat)
    requires
        m.attempt + n <= u32::MAX,
    ensures
        after_delays(m, n).attempt == m.attempt + n,
        after_delays(m, n).base_ms == m.base_ms,
        after_delays(m, n).max_ms == m.max_ms,
    decreases n,
{
    if n > 0 {
        lemma_attempt_counts_delays(m, (n - 1) as nat);
    }
}

/// No delay exceeds the cap.
pub proof fn lemma_backoff_capped(base_ms: u64, max_ms: u64, attempt: u32)
    ensures
        0 <= backoff_delay(base_ms, max_ms, attempt) <= max_ms,
{
    lemma_pow2_pos(doublings(attempt));
    assert(uncapped_bound(base_ms, attempt) >= 0) by (nonlinear_arith)
        requires
            pow2(doublings(attempt)) > 0,
    ;
}

/// The backoff doubles: the uncapped bound starts at the base, doubles with
/// each attempt up to the tenth, and stays at 1024 times the base from then
/// on; the delay handed out is that bound, or the cap when the bound
/// reaches it.
pub proof fn lemma_backoff_doubles(base_ms: u64, max_ms: u64, attempt: u32)
    ensures
        uncapped_bound(base_ms, 0) == base_ms,
        attempt < 10 ==> uncapped_bound(base_ms, (attempt + 1) as u32) == 2 * uncapped_bound(
            base_ms,
            attempt,
        ),
        attempt >= 10 ==> uncapped_bound(base_ms, attempt) == 1024 * base_ms,
        backoff_delay(base_ms, max_ms, attempt) == (if max_ms <= uncapped_bound(base_ms, attempt) {
            max_ms as int
        } else {
            uncapped_bound(base_ms, attempt)
        }),
{
    lemma2_to64();
    assert(doublings(0) == 0);
    assert(uncapped_bound(base_ms, 0) == base_ms * pow2(0));
    assert(base_ms * pow2(0) == base_ms) by {
        assert(pow2(0) == 1);
    }
    if attempt >= 10 {
        assert(doublings(attempt) == 10);
        assert(pow2(10) == 1024);
        assert(uncapped_bound(base_ms, attempt) == base_ms * 1024);
    }
    if attempt < 10 {
        let e = (attempt + 1) as nat;
        lemma_pow2_unfold(e);
        let p = pow2(attempt as nat);
        assert(pow2(e) == 2 * p);
        assert(base_ms * (2 * p) == 2 * (base_ms * p)) by (nonlinear_arith);
    }
}

/// Delays never shrink as attempts grow (until a reset).
pub proof fn lemma_backoff_monotone(base_ms: u64, max_ms: u64, a: u32, b: u32)
    requires
        a <= b,
    ensures
        backoff_delay(base_ms, max_ms, a) <= backoff_delay(base_ms, max_ms, b),
{
    let ea = doublings(a);
    let eb = doublings(b);
    if ea < eb {
        lemma_pow2_strictly_increases(ea, eb);
    }
    let pa = pow2(ea);
    let pb = pow2(eb);
    assert(pa <= pb);
    assert(base_ms * pa <= base_ms * pb) by (nonlinear_arith)
        requires
            pa <= pb,
    ;
}

/// From the tenth attempt on the delay no longer changes.
pub proof fn lemma_backoff_saturates(base_ms: u64, max_ms: u64, a: u32, b: u32)
    requires
        10 <= a,
        10 <= b,
    ensures
        backoff_delay(base_ms, max_ms, a) == backoff_delay(base_ms, max_ms, b),
{
}

/// After a reset the next delay is the smallest one the policy hands out.
pub proof fn lemma_reset_delay_is_least(base_ms: u64, max_ms: u64, attempt: u32)
    ensures
        backoff_delay(base_ms, max_ms, 0) <= backoff_delay(base_ms, max_ms, attempt),
        backoff_delay(base_ms, max_ms, 0) == (if max_ms <= base_ms { max_ms as int } else { base_ms as int }),
{
    lemma_backoff_monotone(base_ms, max_ms, 0, attempt);
    lemma2_to64();
}

} // verus!
