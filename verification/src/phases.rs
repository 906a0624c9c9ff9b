use vstd::prelude::*;

verus! {

/// One time-boxed segment of the orchestrator's endless cycle.
#[derive(Clone, Copy, Debug, PartialEq, Eq, Structural)]
pub enum Phase {
    Bootstrap,
    ResetSequence,
    RandomWait,
    PhaseOne,
    PhaseTwo,
    PhaseThree,
    PhaseFour,
    SystemFailure,
    FinalDelay,
}

/// Phases that consult the cancellation signal on every tick and break out
/// mid-phase.
pub open spec fn cancellable_during(p: Phase) -> bool {
    match p {
        Phase::Bootstrap => true,
        Phase::RandomWait => true,
        Phase::PhaseOne => true,
        Phase::PhaseTwo => true,
        _ => false,
    }
}

/// Phases that consult the signal only once, at their start: a standing
/// signal skips them whole, but once entered they run to completion.
pub open spec fn terminal_phase(p: Phase) -> bool {
    match p {
        Phase::PhaseThree => true,
        Phase::PhaseFour => true,
        Phase::SystemFailure => true,
        _ => false,
    }
}

/// The phase that follows `p`, given the signal's value at the boundary.
/// The start-check of the three terminal phases is taken here: a standing
/// signal routes past each of them straight to the final delay.
pub open spec fn next_phase(p: Phase, cancel: bool) -> Phase {
    match p {
        Phase::Bootstrap => Phase::ResetSequence,
        Phase::ResetSequence => Phase::RandomWait,
        Phase::RandomWait => Phase::PhaseOne,
        Phase::PhaseOne => Phase::PhaseTwo,
        Phase::PhaseTwo => if cancel {
            Phase::FinalDelay
        } else {
            Phase::PhaseThree
        },
        Phase::PhaseThree => if cancel {
            Phase::FinalDelay
        } else {
            Phase::PhaseFour
        },
        Phase::PhaseFour => if cancel {
            Phase::FinalDelay
        } else {
            Phase::SystemFailure
        },
        Phase::SystemFailure => Phase::FinalDelay,
        Phase::FinalDelay => Phase::Bootstrap,
    }
}

/// The tick threshold a phase is entered with. The bootstrap wait is long on
/// the very first pass and short once it has completed once; the random wait
/// takes the freshly drawn bound.
pub open spec fn limit_for(p: Phase, failsafe: bool, draw: u32) -> u32 {
    match p {
        Phase::Bootstrap => if failsafe {
            1
        } else {
            16
        },
        Phase::ResetSequence => 15,
        Phase::RandomWait => draw,
        Phase::PhaseOne => 47,
        Phase::PhaseTwo => 40,
        Phase::PhaseThree => 10,
        Phase::PhaseFour => 22,
        Phase::SystemFailure => 160,
        Phase::FinalDelay => 10,
    }
}

/// Sequential timer-driven state machine: one phase active at a time, a tick
/// counter against the phase's threshold, the once-set bootstrap-completed
/// flag, and the level-triggered cancellation signal, cleared only when a new
/// cycle begins.
#[derive(Clone, Copy, Debug, PartialEq, Eq, Structural)]
pub struct Orchestrator {
    pub phase: Phase,
    pub ticks: u32,
    pub limit: u32,
    pub failsafe: bool,
    pub cancel: bool,
}

/// The state after the boundary crossing out of `s.phase`.
pub open spec fn advanced(s: Orchestrator, draw: u32) -> Orchestrator {
    let p = next_phase(s.phase, s.cancel);
    let fs = s.failsafe || s.phase == Phase::Bootstrap;
    Orchestrator {
        phase: p,
        ticks: 0,
        limit: if p == Phase::RandomWait {
            draw
        } else {
            limit_for(p, fs, draw)
        },
        failsafe: fs,
        cancel: if s.phase == Phase::FinalDelay {
            false
        } else {
            s.cancel
        },
    }
}

/// The state after one tick: a standing signal ends a cancellable phase at
/// once; otherwise the tick counts, and reaching the threshold crosses the
/// boundary.
pub open spec fn stepped(s: Orchestrator, draw: u32) -> Orchestrator {
    if cancellable_during(s.phase) && s.cancel {
        advanced(s, draw)
    } else if s.ticks + 1 == s.limit {
        advanced(s, draw)
    } else {
        Orchestrator {
            phase: s.phase,
            ticks: (s.ticks + 1) as u32,
            limit: s.limit,
            failsafe: s.failsafe,
            cancel: s.cancel,
        }
    }
}

impl Orchestrator {
    /// Tick count and threshold stand in the ranges the phase table fixes.
    pub open spec fn well_formed(&self) -> bool {
        &&& self.ticks < self.limit
        &&& match self.phase {
            Phase::RandomWait => 15 <= self.limit <= 60,
            _ => self.limit == limit_for(self.phase, self.failsafe, 0),
        }
    }

    /// Code entry is enabled during the second countdown only.
    pub open spec fn entry_enabled(&self) -> bool {
        self.phase == Phase::PhaseTwo
    }

    pub fn new() -> (s: Orchestrator)
        ensures
            s.well_formed(),
            s.phase == Phase::Bootstrap,
            s.ticks == 0,
            !s.failsafe,
            !s.cancel,
    {
        Orchestrator { phase: Phase::Bootstrap, ticks: 0, limit: 16, failsafe: false, cancel: false }
    }

    pub fn is_entry_enabled(&self) -> (b: bool)
        ensures
            b == self.entry_enabled(),
    {
        self.phase == Phase::PhaseTwo
    }

    /// Raises the level-triggered cancellation signal. Only an accepted code
    /// entry does this, and entry is only enabled during the second countdown.
    pub fn request_cancel(&mut self)
        requires
            old(self).entry_enabled(),
        ensures
            final(self).cancel,
            final(self).phase == old(self).phase,
            final(self).ticks == old(self).ticks,
            final(self).limit == old(self).limit,
            final(self).failsafe == old(self).failsafe,
            old(self).well_formed() ==> final(self).well_formed(),
            cancel_clear_of_terminal(*final(self)),
    {
        self.cancel = true;
    }

    /// Advances one tick. Returns whether a phase boundary was crossed.
    pub fn step(&mut self, draw: u32) -> (exited: bool)
        requires
            old(self).well_formed(),
            15 <= draw <= 60,
        ensures
            *final(self) == stepped(*old(self), draw),
            final(self).well_formed(),
            exited == (final(self).phase != old(self).phase),
            old(self).cancel && cancellable_during(old(self).phase) ==> final(self).phase
                == next_phase(old(self).phase, true) && final(self).ticks == 0,
    {
        let cancellable = match self.phase {
            Phase::Bootstrap => true,
            Phase::RandomWait => true,
            Phase::PhaseOne => true,
            Phase::PhaseTwo => true,
            _ => false,
        };
        if cancellable && self.cancel {
            self.advance(draw);
            true
        } else if self.ticks + 1 == self.limit {
            self.advance(draw);
            true
        } else {
            self.ticks = self.ticks + 1;
            false
        }
    }

    /// Crosses the boundary out of the current phase.
    fn advance(&mut self, draw: u32)
        requires
            15 <= draw <= 60,
        ensures
            *final(self) == advanced(*old(self), draw),
            final(self).well_formed(),
    {
        let fs = self.failsafe || self.phase == Phase::Bootstrap;
        let p = match self.phase {
            Phase::Bootstrap => Phase::ResetSequence,
            Phase::ResetSequence => Phase::RandomWait,
            Phase::RandomWait => Phase::PhaseOne,
            Phase::PhaseOne => Phase::PhaseTwo,
            Phase::PhaseTwo => if self.cancel {
                Phase::FinalDelay
            } else {
                Phase::PhaseThree
            },
            Phase::PhaseThree => if self.cancel {
                Phase::FinalDelay
            } else {
                Phase::PhaseFour
            },
            Phase::PhaseFour => if self.cancel {
                Phase::FinalDelay
            } else {
                Phase::SystemFailure
            },
            Phase::SystemFailure => Phase::FinalDelay,
            Phase::FinalDelay => Phase::Bootstrap,
        };
        let limit: u32 = match p {
            Phase::Bootstrap => if fs {
                1
            } else {
                16
            },
            Phase::ResetSequence => 15,
            Phase::RandomWait => draw,
            Phase::PhaseOne => 47,
            Phase::PhaseTwo => 40,
            Phase::PhaseThree => 10,
            Phase::PhaseFour => 22,
            Phase::SystemFailure => 160,
            Phase::FinalDelay => 10,
        };
        let cancel = if self.phase == Phase::FinalDelay {
            false
        } else {
            self.cancel
        };
        self.phase = p;
        self.ticks = 0;
        self.limit = limit;
        self.failsafe = fs;
        self.cancel = cancel;
    }
}

/// A standing signal never coexists with a running terminal phase.
pub open spec fn cancel_clear_of_terminal(s: Orchestrator) -> bool {
    s.cancel ==> !terminal_phase(s.phase)
}

/// One step never carries a standing signal into PhaseThree, PhaseFour or
/// SystemFailure: their start-check routes past them.
pub proof fn lemma_step_preserves_cancel_safety(s: Orchestrator, draw: u32)
    requires
        s.well_formed(),
        cancel_clear_of_terminal(s),
        15 <= draw <= 60,
    ensures
        cancel_clear_of_terminal(stepped(s, draw)),
        stepped(s, draw).well_formed(),
{
}

/// A cancellation standing during the first countdown ends it on the very
/// next tick, before its natural threshold of 47 ticks is reached.
pub proof fn lemma_cancel_ends_phase_one_early(s: Orchestrator, draw: u32)
    requires
        s.well_formed(),
        s.phase == Phase::PhaseOne,
        s.cancel,
    ensures
        stepped(s, draw).phase == Phase::PhaseTwo,
        s.ticks < 47,
{
}

/// Once entered, the third countdown ignores a signal raised mid-phase and
/// runs its full tick count; the signal is consulted again only at the next
/// boundary, where it decides whether PhaseFour starts at all.
pub proof fn lemma_phase_three_runs_to_completion(s: Orchestrator, draw: u32)
    requires
        s.well_formed(),
        s.phase == Phase::PhaseThree,
    ensures
        s.ticks + 1 < s.limit ==> stepped(s, draw).phase == Phase::PhaseThree && stepped(
            s,
            draw,
        ).ticks == s.ticks + 1,
        s.ticks + 1 == s.limit && s.cancel ==> stepped(s, draw).phase == Phase::FinalDelay,
        s.ticks + 1 == s.limit && !s.cancel ==> stepped(s, draw).phase == Phase::PhaseFour,
{
}

/// Along any stepped run whose first state carries no standing signal inside
/// a terminal phase, no later state does either: a cycle cancelled during its
/// cancellable phases never reaches PhaseThree, PhaseFour or SystemFailure
/// while the signal stands.
#[verifier::rlimit(100)]
#[verifier::spinoff_prover]
pub proof fn lemma_cancelled_cycle_avoids_terminal(states: Seq<Orchestrator>, draws: Seq<u32>)
    requires
        states.len() == draws.len() + 1,
        states[0].well_formed(),
        cancel_clear_of_terminal(states[0]),
        forall|i: int| 0 <= i < draws.len() ==> 15 <= #[trigger] draws[i] <= 60,
        forall|i: int| 0 <= i < draws.len() ==> states[i + 1] == stepped(
            #[trigger] states[i],
            draws[i],
        ),
    ensures
        forall|i: int|
            0 <= i < states.len() ==> cancel_clear_of_terminal(#[trigger] states[i])
                && states[i].well_formed(),
    decreases states.len(),
{
    if states.len() > 1 {
        let n = states.len() as int - 1;
        let front = states.subrange(0, n);
        let front_draws = draws.subrange(0, n - 1);
        assert(front[0] == states[0]);
        assert forall|i: int| 0 <= i < front_draws.len() implies front[i + 1] == stepped(
            #[trigger] front[i],
            front_draws[i],
        ) by {
            assert(front[i] == states[i]);
            assert(front[i + 1] == states[i + 1]);
            assert(front_draws[i] == draws[i]);
            assert(states[i + 1] == stepped(states[i], draws[i]));
        }
        lemma_cancelled_cycle_avoids_terminal(front, front_draws);
        assert(front[n - 1] == states[n - 1]);
        assert(cancel_clear_of_terminal(states[n - 1]) && states[n - 1].well_formed());
        lemma_step_preserves_cancel_safety(states[n - 1], draws[n - 1]);
        assert(states[n] == stepped(states[n - 1], draws[n - 1]));
        assert forall|i: int|
            0 <= i < states.len() implies cancel_clear_of_terminal(#[trigger] states[i])
            && states[i].well_formed() by {
            if i < n {
                assert(front[i] == states[i]);
            }
        }
    }
}

/// Splits a countdown value below 1000 into the hundreds, tens and units
/// digits the three display positions show.
pub fn countdown_digits(remaining: u32) -> (d: (u32, u32, u32))
    requires
        remaining < 1000,
    ensures
        d.0 == remaining / 100,
        d.1 == (remaining / 10) % 10,
        d.2 == remaining % 10,
        d.0 * 100 + d.1 * 10 + d.2 == remaining,
{
    let h = remaining / 100;
    let t = (remaining / 10) % 10;
    let u = remaining % 10;
    proof {
        assert(h * 100 + t * 10 + u == remaining) by (nonlinear_arith)
            requires
                remaining < 1000,
                h == remaining / 100,
                t == (remaining / 10) % 10,
                u == remaining % 10,
        ;
    }
    (h, t, u)
}

} // verus!
