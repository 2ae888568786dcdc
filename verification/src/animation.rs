//! The animation loop's state machine.
//!
//! The loop owns exactly one piece of state: the phase counter in
//! [0, [`PHASE_PERIOD`]) together with a run status. Each tick either stops
//! the animation (a key arrived) or advances the phase by one, wrapping
//! modulo the period.

use vstd::prelude::*;
use vstd::arithmetic::div_mod::{
    lemma_add_mod_noop,
    lemma_mod_add_multiples_vanish,
    lemma_small_mod,
};
use crate::progress::PHASE_PERIOD;

verus! {

/// Whether the animation loop keeps running or was stopped by a keypress.
#[derive(Clone, Copy, Debug, PartialEq, Eq, Structural)]
pub enum Status {
    Running,
    Stopped,
}

/// The loop's whole state: a phase counter and the run status.
#[derive(Clone, Copy, Debug, PartialEq, Eq, Structural)]
pub struct Animation {
    pub phase: u8,
    pub status: Status,
}

impl Animation {
    /// The phase counter stays inside its period.
    pub open spec fn wf(self) -> bool {
        self.phase < PHASE_PERIOD
    }

    /// A fresh animation: running, at phase zero.
    pub fn new() -> (a: Animation)
        ensures
            a.wf(),
            a.phase == 0,
            a.status == Status::Running,
    {
        Animation { phase: 0, status: Status::Running }
    }

    /// One tick, taken after a frame was fully rendered and the bounded
    /// wait for input has elapsed. A keypress stops the animation with the
    /// phase untouched; otherwise the phase advances by one, modulo its
    /// period, and the loop stays running.
    pub fn tick(&mut self, key_pressed: bool)
        requires
            old(self).wf(),
            old(self).status == Status::Running,
        ensures
            final(self).wf(),
            key_pressed ==> final(self).status == Status::Stopped
                && final(self).phase == old(self).phase,
            !key_pressed ==> final(self).status == Status::Running
                && final(self).phase == (old(self).phase + 1) % (PHASE_PERIOD as int),
    {
        if key_pressed {
            self.status = Status::Stopped;
        } else {
            self.phase = (self.phase + 1) % PHASE_PERIOD;
        }
    }
}

/// The phase reached after `n` uninterrupted ticks from phase `p`.
pub open spec fn phase_after(p: int, n: nat) -> int
    decreases n,
{
    if n == 0 {
        p
    } else {
        (phase_after(p, (n - 1) as nat) + 1) % (PHASE_PERIOD as int)
    }
}

/// `n` uninterrupted ticks advance the phase by `n`, modulo the period.
pub proof fn lemma_phase_after(p: int, n: nat)
    requires
        0 <= p < PHASE_PERIOD,
    ensures
        phase_after(p, n) == (p + n) % (PHASE_PERIOD as int),
    decreases n,
{
    let m = PHASE_PERIOD as int;
    if n == 0 {
        lemma_small_mod(p as nat, PHASE_PERIOD as nat);
    } else {
        lemma_phase_after(p, (n - 1) as nat);
        lemma_small_mod(1, PHASE_PERIOD as nat);
        lemma_add_mod_noop(p + n - 1, 1, m);
    }
}

/// Law: the phase counter is periodic. A full period of uninterrupted
/// ticks returns it to where it began; in particular, from its initial
/// value zero it comes back to zero.
pub proof fn lemma_phase_periodic(p: int)
    requires
        0 <= p < PHASE_PERIOD,
    ensures
        phase_after(p, PHASE_PERIOD as nat) == p,
{
    let m = PHASE_PERIOD as int;
    lemma_phase_after(p, PHASE_PERIOD as nat);
    lemma_mod_add_multiples_vanish(p, m);
    lemma_small_mod(p as nat, PHASE_PERIOD as nat);
}

} // verus!
