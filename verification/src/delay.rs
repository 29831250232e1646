use rand::Rng;
use vstd::prelude::*;

verus! {

/// Bounds of the random response delay of the demo nodes, in nanoseconds;
/// `min` is inclusive and `max` exclusive.
#[derive(Debug, Clone, Copy, PartialEq, Eq, Structural)]
pub struct ResponseDelays {
    pub min: u64,
    pub max: u64,
}

impl Default for ResponseDelays {
    /// From one millisecond up to 250 milliseconds.
    fn default() -> (delays: Self)
        ensures
            delays.min == 1_000_000,
            delays.max == 250_000_000,
    {
        ResponseDelays { min: 1_000_000, max: 250_000_000 }
    }
}

/// Number of further calls of `DelayIter::next` that repeat a delay after it is drawn.
pub const DELAY_PERIOD: u32 = 50;

/// Draws a delay with `rand::rng().random_range(low..high)`.
///
/// Trusted: rand documents that the sample lies in the half-open range and
/// that the call panics on an empty one, which `requires` rules out. Which
/// value comes is chance, so nothing more is stated.
#[verifier::external_body]
fn random_delay(low: u64, high: u64) -> (delay: u64)
    requires
        low < high,
    ensures
        low <= delay < high,
{
    rand::rng().random_range(low..high)
}

/// How one call of `DelayIter::next` moves the delays on: node and bounds
/// stay, the new delay lies within the bounds, and it is the old one with one
/// call less left, unless no call was left, in which case a fresh delay lasts
/// `DELAY_PERIOD` more calls.
pub open spec fn delay_step(before: DelayIter, after: DelayIter) -> bool {
    &&& after.node() == before.node()
    &&& after.low() == before.low()
    &&& after.high() == before.high()
    &&& before.low() <= after.delay() < before.high()
    &&& before.remaining() > 0 ==> after.remaining() == before.remaining() - 1
        && after.delay() == before.delay()
    &&& before.remaining() == 0 ==> after.remaining() == DELAY_PERIOD
}

/// The response delays of one demo node: a random delay that is kept for
/// `DELAY_PERIOD + 1` calls in a row, then drawn anew.
#[derive(Debug)]
pub struct DelayIter {
    node_id: u32,
    current_delay: (u32, u64),
    delay_range: std::ops::Range<u64>,
}

impl DelayIter {
    #[verifier::type_invariant]
    spec fn well_formed(self) -> bool {
        &&& self.delay_range.start < self.delay_range.end
        &&& self.delay_range.start <= self.current_delay.1 < self.delay_range.end
        &&& self.current_delay.0 <= DELAY_PERIOD
    }

    /// The node whose delays these are.
    pub closed spec fn node(self) -> u32 {
        self.node_id
    }

    /// How many more calls repeat the current delay.
    pub closed spec fn remaining(self) -> u32 {
        self.current_delay.0
    }

    /// The current delay.
    pub closed spec fn delay(self) -> u64 {
        self.current_delay.1
    }

    /// Lower bound of the delays (inclusive).
    pub closed spec fn low(self) -> u64 {
        self.delay_range.start
    }

    /// Upper bound of the delays (exclusive).
    pub closed spec fn high(self) -> u64 {
        self.delay_range.end
    }

    /// Starts the delays of `node_id` with a random delay in `delay_range`.
    pub fn new(node_id: u32, delay_range: std::ops::Range<u64>) -> (delays: Self)
        requires
            delay_range.start < delay_range.end,
        ensures
            delays.node() == node_id,
            delays.low() == delay_range.start,
            delays.high() == delay_range.end,
            delays.remaining() == DELAY_PERIOD,
            delay_range.start <= delays.delay() < delay_range.end,
    {
        let first = random_delay(delay_range.start, delay_range.end);
        DelayIter { node_id, current_delay: (DELAY_PERIOD, first), delay_range }
    }

    /// The delay for the next response: the current one while it has calls
    /// left, else a new random one, which then lasts `DELAY_PERIOD` more calls.
    pub fn next(&mut self) -> (delay: Option<u64>)
        ensures
            delay == Some(final(self).delay()),
            delay_step(*old(self), *final(self)),
    {
        proof {
            use_type_invariant(&*self);
        }
        if self.current_delay.0 > 0 {
            self.current_delay = (self.current_delay.0 - 1, self.current_delay.1);
        } else {
            let fresh = random_delay(self.delay_range.start, self.delay_range.end);
            self.current_delay = (DELAY_PERIOD, fresh);
        }
        Some(self.current_delay.1)
    }
}


/// The state after `i` successive calls, compared with the first state.
proof fn lemma_delay_state(states: Seq<DelayIter>, i: int)
    requires
        0 <= i < states.len(),
        forall|k: int| 0 <= k < states.len() - 1 ==> delay_step(#[trigger] states[k], states[k + 1]),
    ensures
        states[i].low() == states[0].low(),
        states[i].high() == states[0].high(),
        i <= states[0].remaining() ==> states[i].delay() == states[0].delay()
            && states[i].remaining() == states[0].remaining() - i,
        i >= 1 ==> states[0].low() <= states[i].delay() < states[0].high(),
    decreases i,
{
    if i > 0 {
        lemma_delay_state(states, i - 1);
        assert(delay_step(states[i - 1], states[i]));
    }
}

/// Law: a delay is kept while calls remain. Along successive calls of
/// `DelayIter::next`, the first `remaining() + 1` states have the first
/// state's delay, each with one call less left, and every delay lies within
/// the bounds.
pub proof fn lemma_delay_kept_while_calls_remain(states: Seq<DelayIter>)
    requires
        forall|i: int| 0 <= i < states.len() - 1 ==> delay_step(#[trigger] states[i], states[i + 1]),
    ensures
        forall|i: int|
            0 <= i < states.len() && i <= states[0].remaining() ==> #[trigger] states[i].delay()
                == states[0].delay() && states[i].remaining() == states[0].remaining() - i,
        forall|i: int|
            1 <= i < states.len() ==> states[0].low() <= #[trigger] states[i].delay() < states[0].high(),
{
    assert forall|i: int|
        0 <= i < states.len() && i <= states[0].remaining() implies #[trigger] states[i].delay()
            == states[0].delay() && states[i].remaining() == states[0].remaining() - i by {
        lemma_delay_state(states, i);
    }
    assert forall|i: int| 1 <= i < states.len() implies states[0].low() <= #[trigger] states[i].delay()
        < states[0].high() by {
        lemma_delay_state(states, i);
    }
}


/// How many calls after a state with `start` calls left the delay has
/// `remaining_after(start, i)` calls left: counting down to zero, then
/// cycling from `DELAY_PERIOD` down to zero again.
pub open spec fn remaining_after(start: int, i: int) -> int {
    if i <= start {
        start - i
    } else {
        DELAY_PERIOD - (i - start - 1) % (DELAY_PERIOD + 1)
    }
}

/// Whether the `i`-th call after a state with `start` calls left draws a
/// fresh delay: the first call after the count reaches zero, and every
/// `DELAY_PERIOD + 1` calls from then on.
pub open spec fn redraws_at(start: int, i: int) -> bool {
    i > start && (i - start - 1) % (DELAY_PERIOD + 1) == 0
}

/// The calls left and the redraws along successive calls of `next`.
proof fn lemma_delay_cycle(states: Seq<DelayIter>, i: int)
    requires
        0 <= i < states.len(),
        forall|k: int| 0 <= k < states.len() - 1 ==> delay_step(#[trigger] states[k], states[k + 1]),
    ensures
        states[i].remaining() == remaining_after(states[0].remaining() as int, i),
        i >= 1 ==> (redraws_at(states[0].remaining() as int, i) <==> states[i - 1].remaining() == 0),
        i >= 1 && !redraws_at(states[0].remaining() as int, i) ==> states[i].delay() == states[i
            - 1].delay(),
    decreases i,
{
    if i > 0 {
        lemma_delay_cycle(states, i - 1);
        assert(delay_step(states[i - 1], states[i]));
        let r = states[0].remaining() as int;
        if i - 1 > r {
            let m = (i - 1 - r - 1) % 51;
            assert(0 <= m < 51);
            assert((i - r - 1) % 51 == if m == 50 { 0 } else { m + 1 });
        }
    }
}

/// Law: a fresh delay is drawn exactly at every `DELAY_PERIOD + 1`-th call
/// once the calls left run out, and repeated at every other call. Along
/// successive calls of `DelayIter::next` from a state with `r` calls left,
/// the `i`-th state has `remaining_after(r, i)` calls left; the `i`-th call
/// draws anew exactly when `redraws_at(r, i)`, that is when the state before
/// it had no call left, and otherwise keeps the delay of the state before.
pub proof fn lemma_delay_redrawn_every_period(states: Seq<DelayIter>)
    requires
        forall|i: int| 0 <= i < states.len() - 1 ==> delay_step(#[trigger] states[i], states[i + 1]),
    ensures
        forall|i: int|
            0 <= i < states.len() ==> #[trigger] states[i].remaining() == remaining_after(
                states[0].remaining() as int,
                i,
            ),
        forall|i: int|
            1 <= i < states.len() ==> (#[trigger] redraws_at(states[0].remaining() as int, i)
                <==> states[i - 1].remaining() == 0),
        forall|i: int|
            1 <= i < states.len() && !redraws_at(states[0].remaining() as int, i) ==> #[trigger] states[i].delay()
                == states[i - 1].delay(),
{
    assert forall|i: int| 0 <= i < states.len() implies #[trigger] states[i].remaining() == remaining_after(
        states[0].remaining() as int,
        i,
    ) by {
        lemma_delay_cycle(states, i);
    }
    assert forall|i: int| 1 <= i < states.len() implies (#[trigger] redraws_at(
        states[0].remaining() as int,
        i,
    ) <==> states[i - 1].remaining() == 0) by {
        lemma_delay_cycle(states, i);
    }
    assert forall|i: int|
        1 <= i < states.len() && !redraws_at(states[0].remaining() as int, i) implies #[trigger] states[i].delay()
            == states[i - 1].delay() by {
        lemma_delay_cycle(states, i);
    }
}

} // verus!
