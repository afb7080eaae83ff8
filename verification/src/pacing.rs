//! Pacing: how many moves of the search fall due on each tick of the caller.
//!
//! The rate is a fixed-point number of moves per tick, counted in millionths
//! of a move. At one move per tick or more, every tick runs the whole part of
//! the rate. Below that, ticks are counted, and one move runs each time the
//! count reaches the whole part of the reciprocal of the rate.

use vstd::prelude::*;

verus! {

/// One move per tick, in the unit of the rate.
pub const RATE_UNIT: u64 = 1_000_000;

/// The slowest rate: 0.005 moves per tick.
pub const MIN_RATE: u64 = 5_000;

/// The fastest rate: 100 000 moves per tick.
pub const MAX_RATE: u64 = 100_000_000_000;

/// The rate and the count of ticks since the last move at a slow rate.
#[derive(Clone, Copy, Debug)]
pub struct Pacing {
    rate: u64,
    substeps: u32,
}

/// The mathematical content of a `Pacing`.
pub struct PacingView {
    pub rate: int,
    pub substeps: int,
}

/// `r` brought into the range from `MIN_RATE` to `MAX_RATE`.
pub open spec fn clamp_rate(r: int) -> int {
    if r < MIN_RATE {
        MIN_RATE as int
    } else if r > MAX_RATE {
        MAX_RATE as int
    } else {
        r
    }
}

/// The rate after multiplying by `multiplier` millionths and clamping.
pub open spec fn scaled(rate: int, multiplier: int) -> int {
    clamp_rate(rate * multiplier / (RATE_UNIT as int))
}

/// At a rate below one move per tick: the number of ticks that make one move,
/// the whole part of the reciprocal of the rate.
pub open spec fn period(rate: int) -> int {
    (RATE_UNIT as int) / rate
}

impl PacingView {
    pub open spec fn wf(self) -> bool {
        &&& MIN_RATE <= self.rate <= MAX_RATE
        &&& 0 <= self.substeps < 200
    }

    /// The number of moves that fall due on the next tick.
    pub open spec fn budget(self) -> int {
        if self.rate >= RATE_UNIT {
            self.rate / (RATE_UNIT as int)
        } else if self.substeps + 1 >= period(self.rate) {
            1
        } else {
            0
        }
    }

    /// The pacing after the next tick.
    pub open spec fn ticked(self) -> PacingView {
        if self.rate >= RATE_UNIT {
            self
        } else if self.substeps + 1 >= period(self.rate) {
            PacingView { substeps: 0, ..self }
        } else {
            PacingView { substeps: self.substeps + 1, ..self }
        }
    }

    /// The pacing after `k` ticks.
    pub open spec fn after_ticks(self, k: nat) -> PacingView
        decreases k,
    {
        if k == 0 {
            self
        } else {
            self.after_ticks((k - 1) as nat).ticked()
        }
    }

    /// The rate shown to the user, as numerator and denominator.
    pub open spec fn effective_rate(self) -> (int, int) {
        if self.rate >= RATE_UNIT {
            (self.rate / (RATE_UNIT as int), 1)
        } else {
            (1, period(self.rate) + 1)
        }
    }
}

impl View for Pacing {
    type V = PacingView;

    closed spec fn view(&self) -> PacingView {
        PacingView { rate: self.rate as int, substeps: self.substeps as int }
    }
}

impl Pacing {
    pub open spec fn wf(&self) -> bool {
        self@.wf()
    }

    /// One move per tick, no tick counted yet.
    pub fn new() -> (p: Pacing)
        ensures
            p.wf(),
            p@.rate == RATE_UNIT,
            p@.substeps == 0,
    {
        Pacing { rate: RATE_UNIT, substeps: 0 }
    }

    /// The rate in millionths of a move per tick.
    pub fn rate(&self) -> (r: u64)
        ensures
            r == self@.rate,
    {
        self.rate
    }

    /// The ticks counted since the last move at a slow rate.
    pub fn substeps(&self) -> (n: u32)
        ensures
            n == self@.substeps,
    {
        self.substeps
    }

    /// Forgets the ticks counted so far; the rate stays.
    pub fn restart(&mut self)
        requires
            old(self).wf(),
        ensures
            final(self).wf(),
            final(self)@ == (PacingView { substeps: 0, ..old(self)@ }),
    {
        self.substeps = 0;
    }

    /// Multiplies the rate by `multiplier` millionths and clamps the product
    /// to the range from `MIN_RATE` to `MAX_RATE`.
    pub fn scale(&mut self, multiplier: u64)
        requires
            old(self).wf(),
        ensures
            final(self).wf(),
            final(self)@ == (PacingView {
                rate: scaled(old(self)@.rate, multiplier as int),
                ..old(self)@
            }),
    {
        assert(self.rate * multiplier <= 100_000_000_000 * 0xffff_ffff_ffff_ffff) by (nonlinear_arith)
            requires
                0 <= self.rate <= 100_000_000_000,
                0 <= multiplier <= 0xffff_ffff_ffff_ffff,
        ;
        let product: u128 = (self.rate as u128) * (multiplier as u128);
        let quotient: u128 = product / (RATE_UNIT as u128);
        if quotient < MIN_RATE as u128 {
            self.rate = MIN_RATE;
        } else if quotient > MAX_RATE as u128 {
            self.rate = MAX_RATE;
        } else {
            self.rate = quotient as u64;
        }
    }

    /// Counts one tick and returns the number of moves that fall due on it.
    pub fn tick(&mut self) -> (moves: u32)
        requires
            old(self).wf(),
        ensures
            final(self).wf(),
            moves == old(self)@.budget(),
            final(self)@ == old(self)@.ticked(),
            moves <= 100_000,
    {
        if self.rate >= RATE_UNIT {
            (self.rate / RATE_UNIT) as u32
        } else {
            proof {
                lemma_period_bounds(self.rate as int);
            }
            let every: u64 = RATE_UNIT / self.rate;
            let counted: u32 = self.substeps + 1;
            if counted as u64 >= every {
                self.substeps = 0;
                1
            } else {
                self.substeps = counted;
                0
            }
        }
    }

    /// The rate shown to the user, as numerator and denominator: the whole
    /// part of the rate over 1 at one move per tick or more, else 1 over the
    /// period plus 1.
    pub fn effective_rate(&self) -> (shown: (u64, u64))
        requires
            self.wf(),
        ensures
            shown.0 == self@.effective_rate().0,
            shown.1 == self@.effective_rate().1,
            shown.1 >= 1,
    {
        if self.rate >= RATE_UNIT {
            (self.rate / RATE_UNIT, 1)
        } else {
            (1, RATE_UNIT / self.rate + 1)
        }
    }
}

/// A tick keeps the pacing in range.
pub proof fn lemma_ticked_wf(v: PacingView)
    requires
        v.wf(),
    ensures
        v.ticked().wf(),
        0 <= v.budget() <= 100_000,
{
    if v.rate < RATE_UNIT {
        lemma_period_bounds(v.rate);
    }
}

/// At one move per tick or more, every tick runs the whole part of the rate
/// and leaves the pacing as it was.
pub proof fn lemma_fast_rate_every_tick(v: PacingView, k: nat)
    requires
        v.wf(),
        v.rate >= RATE_UNIT,
    ensures
        v.after_ticks(k) == v,
        v.after_ticks(k).budget() == v.rate / (RATE_UNIT as int),
        v.after_ticks(k).budget() >= 1,
    decreases k,
{
    if k > 0 {
        lemma_fast_rate_every_tick(v, (k - 1) as nat);
    }
}

/// Below one move per tick, starting with no tick counted, the count after
/// `k` ticks is `k` modulo the period; so the tick that follows runs one move
/// exactly when it is a multiple of the period, and none otherwise.
pub proof fn lemma_slow_rate_period(v: PacingView, k: nat)
    requires
        v.wf(),
        v.rate < RATE_UNIT,
        v.substeps == 0,
    ensures
        1 <= period(v.rate) <= 200,
        v.after_ticks(k).rate == v.rate,
        v.after_ticks(k).substeps == (k as int) % period(v.rate),
        v.after_ticks(k).wf(),
        v.after_ticks(k).budget() == if ((k + 1) as int) % period(v.rate) == 0 {
            1int
        } else {
            0int
        },
    decreases k,
{
    let n = period(v.rate);
    lemma_period_bounds(v.rate);
    lemma_mod_successor(k as int, n);
    if k == 0 {
        assert(0int % n == 0) by (nonlinear_arith)
            requires
                0 < n,
        ;
    } else {
        lemma_slow_rate_period(v, (k - 1) as nat);
        lemma_mod_successor(k - 1, n);
        let before = v.after_ticks((k - 1) as nat);
        assert(v.after_ticks(k) == before.ticked());
        assert(before.substeps == (k - 1) % n);
    }
}

/// At a rate below one move per tick the period lies between 1 and 200.
pub proof fn lemma_period_bounds(rate: int)
    requires
        MIN_RATE <= rate < RATE_UNIT,
    ensures
        1 <= period(rate) <= 200,
{
    assert(1 <= 1_000_000int / rate <= 200) by (nonlinear_arith)
        requires
            5_000 <= rate < 1_000_000,
    ;
}

/// The remainder of `a + 1` is 0 where the remainder of `a` is `n - 1`, and
/// one more than the remainder of `a` elsewhere.
proof fn lemma_mod_successor(a: int, n: int)
    requires
        0 <= a,
        0 < n,
    ensures
        0 <= a % n < n,
        (a + 1) % n == if a % n + 1 >= n {
            0
        } else {
            a % n + 1
        },
{
    assert(0 <= a % n < n && (a + 1) % n == if a % n + 1 >= n {
        0
    } else {
        a % n + 1
    }) by (nonlinear_arith)
        requires
            0 <= a,
            0 < n,
    ;
}

} // verus!
