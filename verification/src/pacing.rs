//! When the next frame is due.

use vstd::prelude::*;

verus! {

/// The pace of a camera.
#[derive(Clone, Copy, Debug, PartialEq, Eq, Structural)]
pub struct Pacing {
    /// True while frames are to be pushed (streaming && driving && !lazy).
    pub streaming: bool,
    /// Frame period in nanoseconds (from the negotiated framerate).
    pub period_ns: u64,
    /// Deadline of the next frame (monotonic nanoseconds).
    pub next_due: u64,
}

impl Pacing {
    /// Whether a frame is due at `now`.
    pub open spec fn due(self, now: u64) -> bool {
        self.streaming && self.period_ns > 0 && now >= self.next_due
    }

    /// The deadline that follows a frame produced at `now`: the first one behind `now`, a whole
    /// number of periods from the one that was met.
    pub open spec fn deadline_after(self, now: u64) -> int {
        self.next_due + ((now - self.next_due) / self.period_ns as int + 1) * self.period_ns
    }

    /// The pace after a timer tick at `now`.
    pub open spec fn ticked(self, now: u64) -> Pacing {
        if self.due(now) {
            Pacing { next_due: self.deadline_after(now) as u64, ..self }
        } else {
            self
        }
    }

    /// Nothing is due before a stream has started.
    pub fn new() -> (r: Pacing)
        ensures
            r == (Pacing { streaming: false, period_ns: 0, next_due: 0 }),
    {
        Pacing { streaming: false, period_ns: 0, next_due: 0 }
    }

    /// A timer tick at `now`: whether a frame is to be produced. Advances past any missed
    /// periods (no catch-up bursts).
    pub fn tick(&mut self, now: u64) -> (r: bool)
        requires
            old(self).due(now) ==> old(self).deadline_after(now) <= u64::MAX,
        ensures
            r == old(self).due(now),
            r <==> old(self).streaming && old(self).period_ns > 0 && now >= old(self).next_due,
            *final(self) == old(self).ticked(now),
            final(self).streaming == old(self).streaming,
            final(self).period_ns == old(self).period_ns,
            r ==> now < final(self).next_due <= now + old(self).period_ns,
            r ==> (final(self).next_due - old(self).next_due) % old(self).period_ns as int == 0,
            !r ==> final(self).next_due == old(self).next_due,
    {
        if !self.streaming {
            return false;
        }
        let period: u64 = self.period_ns;
        if period == 0 {
            return false;
        }
        let next: u64 = self.next_due;
        if now < next {
            return false;
        }
        let missed: u64 = (now - next) / period;
        proof {
            law_deadline_is_next(*self, now);
            assert(missed < u64::MAX) by (nonlinear_arith)
                requires
                    missed == (now - next) / period as int,
                    next + (missed + 1) * period <= u64::MAX,
                    period >= 1,
                    missed >= 0,
                    next >= 0,
            ;
        }
        self.next_due = next + (missed + 1) * period;
        true
    }
}

/// After a frame the deadline lies ahead, at most one period, and in step with the old one.
pub proof fn law_deadline_is_next(p: Pacing, now: u64)
    requires
        p.due(now),
    ensures
        now < p.deadline_after(now) <= now + p.period_ns,
        (p.deadline_after(now) - p.next_due) % p.period_ns as int == 0,
        p.deadline_after(now) >= p.next_due + p.period_ns,
{
    let period = p.period_ns as int;
    let late = now - p.next_due;
    let missed = late / period;
    assert(late == missed * period + late % period && 0 <= late % period < period && missed >= 0)
        by (nonlinear_arith)
        requires
            period > 0,
            late >= 0,
            missed == late / period,
    ;
    assert((missed + 1) * period == missed * period + period) by (nonlinear_arith);
    assert(missed * period >= 0) by (nonlinear_arith)
        requires
            missed >= 0,
            period > 0,
    ;
    assert(((missed + 1) * period) % period == 0) by (nonlinear_arith)
        requires
            period > 0,
    ;
}

/// A tick that is less than a period late skips nothing: the deadline moves by one period.
pub proof fn law_punctual_tick_skips_nothing(p: Pacing, now: u64)
    requires
        p.due(now),
        now - p.next_due < p.period_ns,
    ensures
        p.deadline_after(now) == p.next_due + p.period_ns,
{
    assert((now - p.next_due) / p.period_ns as int == 0) by (nonlinear_arith)
        requires
            0 <= now - p.next_due < p.period_ns,
    ;
}

/// The pace after ticks at the given times.
pub open spec fn after_ticks(p: Pacing, times: Seq<u64>) -> Pacing
    decreases times.len(),
{
    if times.len() == 0 {
        p
    } else {
        after_ticks(p, times.drop_last()).ticked(times.last())
    }
}

/// How many frames ticks at the given times produce.
pub open spec fn frames(p: Pacing, times: Seq<u64>) -> nat
    decreases times.len(),
{
    if times.len() == 0 {
        0
    } else {
        let before = times.drop_last();
        frames(p, before) + if after_ticks(p, before).due(times.last()) {
            1nat
        } else {
            0nat
        }
    }
}

/// However often the timer fires up to `end`, it produces at most one frame per period: one for
/// each deadline from the next one up to `end`.
pub proof fn law_at_most_one_frame_per_period(p: Pacing, times: Seq<u64>, end: u64)
    requires
        p.period_ns > 0,
        end + p.period_ns <= u64::MAX,
        forall|i: int| 0 <= i < times.len() ==> #[trigger] times[i] <= end,
    ensures
        frames(p, times) > 0 ==> (frames(p, times) - 1) * p.period_ns <= end - p.next_due,
{
    lemma_deadlines_met(p, times, end);
    let met = frames(p, times) as int;
    let period = p.period_ns as int;
    assert(met > 0 ==> (met - 1) * period == met * period - period) by (nonlinear_arith);
}

proof fn lemma_deadlines_met(p: Pacing, times: Seq<u64>, end: u64)
    requires
        p.period_ns > 0,
        end + p.period_ns <= u64::MAX,
        forall|i: int| 0 <= i < times.len() ==> #[trigger] times[i] <= end,
    ensures
        after_ticks(p, times).period_ns == p.period_ns,
        after_ticks(p, times).streaming == p.streaming,
        after_ticks(p, times).next_due >= p.next_due + frames(p, times) * p.period_ns,
        frames(p, times) > 0 ==> after_ticks(p, times).next_due <= end + p.period_ns,
    decreases times.len(),
{
    if times.len() > 0 {
        let before = times.drop_last();
        let now = times.last();
        let q = after_ticks(p, before);
        assert(now == times[times.len() - 1]);
        assert forall|i: int| 0 <= i < before.len() implies #[trigger] before[i] <= end by {
            assert(before[i] == times[i]);
        }
        lemma_deadlines_met(p, before, end);
        if q.due(now) {
            law_deadline_is_next(q, now);
            let met = frames(p, before) as int;
            let period = p.period_ns as int;
            assert((met + 1) * period == met * period + period) by (nonlinear_arith);
        }
    } else {
        assert(frames(p, times) * p.period_ns == 0) by (nonlinear_arith)
            requires
                frames(p, times) == 0,
        ;
    }
}

/// Whether the ticks start less than a period after the first deadline and come less than a
/// period apart.
pub open spec fn ticks_keep_up(p: Pacing, times: Seq<u64>) -> bool {
    &&& times.len() > 0 ==> times[0] < p.next_due + p.period_ns
    &&& forall|i: int, j: int|
        0 <= i && j == i + 1 && j < times.len() ==> (#[trigger] times[i]) <= (#[trigger] times[j])
            < times[i] + p.period_ns
}

/// While frames are to be pushed and the ticks keep up, every deadline up to the last tick has
/// its frame: there are as many frames as there are deadlines, and each of them, `k` periods
/// behind the first, is met by one of the ticks.
pub proof fn law_every_deadline_has_its_frame(p: Pacing, times: Seq<u64>, k: nat)
    requires
        p.streaming,
        p.period_ns > 0,
        times.len() > 0,
        ticks_keep_up(p, times),
        times.last() + p.period_ns <= u64::MAX,
    ensures
        frames(p, times) == if times.last() >= p.next_due {
            (times.last() - p.next_due) / p.period_ns as int + 1
        } else {
            0
        },
        p.next_due + k * p.period_ns <= times.last() ==> exists|i: int| meets(p, times, i, k),
{
    lemma_keeping_up(p, times);
    let period = p.period_ns as int;
    let met = frames(p, times) as int;
    let late = times.last() - p.next_due;
    if met > 0 {
        assert(met == late / period + 1 && late >= 0) by (nonlinear_arith)
            requires
                period > 0,
                met > 0,
                (met - 1) * period <= late < met * period,
        ;
    } else {
        assert(met * period == 0) by (nonlinear_arith)
            requires
                met == 0,
        ;
    }
    if p.next_due + k * p.period_ns <= times.last() {
        assert(k < met) by (nonlinear_arith)
            requires
                period > 0,
                k * period <= late < met * period,
        ;
        lemma_frame_of_deadline(p, times, k);
    }
}

/// Whether the tick at `times[i]` produces the frame of the deadline that is `k` periods behind
/// the first one.
pub open spec fn meets(p: Pacing, times: Seq<u64>, i: int, k: nat) -> bool {
    &&& 0 <= i < times.len()
    &&& after_ticks(p, times.take(i)).due(times[i])
    &&& after_ticks(p, times.take(i)).next_due == p.next_due + k * p.period_ns
}

/// The deadlines move by one period per frame, and the next one lies behind the last tick.
proof fn lemma_keeping_up(p: Pacing, times: Seq<u64>)
    requires
        p.streaming,
        p.period_ns > 0,
        ticks_keep_up(p, times),
        times.len() > 0 ==> times.last() + p.period_ns <= u64::MAX,
    ensures
        after_ticks(p, times).streaming,
        after_ticks(p, times).period_ns == p.period_ns,
        after_ticks(p, times).next_due == p.next_due + frames(p, times) * p.period_ns,
        times.len() > 0 ==> times.last() < after_ticks(p, times).next_due,
        frames(p, times) > 0 ==> times.len() > 0 && p.next_due + (frames(p, times) - 1)
            * p.period_ns <= times.last(),
    decreases times.len(),
{
    let period = p.period_ns as int;
    if times.len() == 0 {
        assert(frames(p, times) * period == 0) by (nonlinear_arith)
            requires
                frames(p, times) == 0,
        ;
    } else {
        let before = times.drop_last();
        let now = times.last();
        let q = after_ticks(p, before);
        assert(now == times[times.len() - 1]);
        if before.len() > 0 {
            assert(before.last() == times[times.len() - 2]);
            assert(before.last() <= now < before.last() + period);
        }
        assert(ticks_keep_up(p, before)) by {
            assert forall|i: int, j: int| 0 <= i && j == i + 1 && j < before.len() implies (
            #[trigger] before[i]) <= (#[trigger] before[j]) < before[i] + p.period_ns by {
                assert(before[i] == times[i]);
                assert(before[j] == times[j]);
            }
        }
        lemma_keeping_up(p, before);
        let met = frames(p, before) as int;
        assert((met + 1) * period == met * period + period) by (nonlinear_arith);
        if before.len() == 0 {
            assert(met * period == 0) by (nonlinear_arith)
                requires
                    met == 0,
            ;
        }
        if q.due(now) {
            law_punctual_tick_skips_nothing(q, now);
        }
    }
}

/// Every deadline that has been met was met by one of the ticks.
proof fn lemma_frame_of_deadline(p: Pacing, times: Seq<u64>, k: nat)
    requires
        p.streaming,
        p.period_ns > 0,
        ticks_keep_up(p, times),
        times.len() > 0 ==> times.last() + p.period_ns <= u64::MAX,
        k < frames(p, times),
    ensures
        exists|i: int| meets(p, times, i, k),
    decreases times.len(),
{
    let before = times.drop_last();
    let last = times.len() - 1;
    assert(ticks_keep_up(p, before)) by {
        assert forall|i: int, j: int| 0 <= i && j == i + 1 && j < before.len() implies (
        #[trigger] before[i]) <= (#[trigger] before[j]) < before[i] + p.period_ns by {
            assert(before[i] == times[i]);
            assert(before[j] == times[j]);
        }
    }
    if before.len() > 0 {
        assert(before.last() == times[times.len() - 2]);
        assert(before.last() <= times[last]);
    }
    if k < frames(p, before) {
        lemma_frame_of_deadline(p, before, k);
        let i = choose|i: int| meets(p, before, i, k);
        assert(before.take(i) == times.take(i));
        assert(meets(p, times, i, k));
    } else {
        lemma_keeping_up(p, before);
        assert(times.take(last) == before);
        assert(meets(p, times, last, k));
    }
}

/// Nothing is produced, and nothing changes, while frames are not to be pushed.
pub proof fn law_silent_unless_streaming(p: Pacing, times: Seq<u64>)
    requires
        !p.streaming || p.period_ns == 0,
    ensures
        frames(p, times) == 0,
        after_ticks(p, times) == p,
    decreases times.len(),
{
    if times.len() > 0 {
        law_silent_unless_streaming(p, times.drop_last());
    }
}

/// A frame is due exactly while frames are to be pushed at some rate, from the deadline on.
pub proof fn law_due_from_the_deadline_on(p: Pacing, now: u64)
    ensures
        p.due(now) <==> p.streaming && p.period_ns > 0 && p.next_due <= now,
{
}

/// A tick that produces a frame, however late, leaves a deadline that lies behind it, at most
/// one period, and a whole number of periods from the old one; a tick that produces none leaves
/// the pace as it was. The rate stays in either case.
pub proof fn law_tick_leaves_the_deadline_ahead(p: Pacing, now: u64)
    requires
        now + p.period_ns <= u64::MAX,
    ensures
        p.ticked(now).streaming == p.streaming,
        p.ticked(now).period_ns == p.period_ns,
        p.due(now) ==> now < p.ticked(now).next_due <= now + p.period_ns,
        p.due(now) ==> p.ticked(now).next_due > p.next_due,
        p.due(now) ==> (p.ticked(now).next_due - p.next_due) % p.period_ns as int == 0,
        !p.due(now) ==> p.ticked(now).next_due == p.next_due,
{
    if p.due(now) {
        law_deadline_is_next(p, now);
    }
}

/// There are no catch-up bursts: after a tick that produces a frame, no tick within the same
/// period produces another, however many periods the first one has missed.
pub proof fn law_no_catch_up_bursts(p: Pacing, first: u64, second: u64)
    requires
        first + p.period_ns <= u64::MAX,
        p.due(first),
        first <= second,
        (first - p.next_due) / p.period_ns as int == (second - p.next_due) / p.period_ns as int,
    ensures
        !p.ticked(first).due(second),
{
    law_tick_leaves_the_deadline_ahead(p, first);
    let period = p.period_ns as int;
    let (a, b) = (first - p.next_due, second - p.next_due);
    let moved = p.ticked(first).next_due - p.next_due;
    assert(b < moved) by (nonlinear_arith)
        requires
            period > 0,
            0 <= a < moved,
            moved % period == 0,
            a / period == b / period,
    {
        let k = moved / period;
        let q = a / period;
        assert(moved == k * period);
        assert(q * period <= a);
        assert(b < (q + 1) * period);
        assert(q < k);
        assert((q + 1) * period <= k * period);
    }
}

/// Ticks follow one another: each one starts from the pace that the ones before it have left.
pub proof fn law_ticks_follow_one_another(p: Pacing, times: Seq<u64>, now: u64)
    ensures
        after_ticks(p, Seq::empty()) == p,
        frames(p, Seq::empty()) == 0,
        after_ticks(p, times.push(now)) == after_ticks(p, times).ticked(now),
        after_ticks(p, times).due(now) ==> frames(p, times.push(now)) == frames(p, times) + 1,
        !after_ticks(p, times).due(now) ==> frames(p, times.push(now)) == frames(p, times),
{
    assert(times.push(now).drop_last() == times);
}

} // verus!
