//! The countdown before typing starts: one announcement per second, ten
//! 100 ms waits per second, and a stop request honoured at every check.
use vstd::prelude::*;

verus! {

/// What to do after a check of the stop request.
#[derive(Debug, Clone, Copy, PartialEq, Eq, Structural)]
pub enum CountdownStep {
    /// Show that this many seconds remain, then wait 100 ms.
    Announce(i64),
    /// Wait 100 ms.
    Wait,
    /// The countdown is over: start typing.
    Begin,
    /// A stop was requested: give up.
    Cancel,
}

/// Where a countdown stands: the next second to announce, and the 100 ms
/// waits still due in the current second.
pub struct Countdown {
    next: i64,
    waits_left: u32,
}

/// Waits that follow an announcement besides the one it is followed by.
pub open spec fn waits_per_second() -> nat {
    9
}

/// One step from state `s` (next second, waits due) given the stop request.
pub open spec fn step_model(s: (int, nat), stop: bool) -> ((int, nat), CountdownStep) {
    if stop {
        (s, CountdownStep::Cancel)
    } else if s.1 > 0 {
        ((s.0, (s.1 - 1) as nat), CountdownStep::Wait)
    } else if s.0 >= 1 {
        ((s.0 - 1, waits_per_second()), CountdownStep::Announce(s.0 as i64))
    } else {
        (s, CountdownStep::Begin)
    }
}

impl Countdown {
    /// No more waits are due than a second holds.
    #[verifier::type_invariant]
    spec fn well_formed(self) -> bool {
        self.waits_left <= 9
    }

    pub closed spec fn state(&self) -> (int, nat) {
        (self.next as int, self.waits_left as nat)
    }

    /// A countdown of `seconds` seconds (none when `seconds` is below 1).
    pub fn new(seconds: i64) -> (c: Countdown)
        ensures
            c.state() == (seconds as int, 0nat),
    {
        Countdown { next: seconds, waits_left: 0 }
    }

    /// The next step, given whether a stop is requested now.
    pub fn step(&mut self, stop_requested: bool) -> (a: CountdownStep)
        ensures
            (final(self).state(), a) == step_model(old(self).state(), stop_requested),
            final(self).state().1 <= waits_per_second(),
        no_unwind
    {
        proof {
            use_type_invariant(&*self);
        }
        if stop_requested {
            CountdownStep::Cancel
        } else if self.waits_left > 0 {
            self.waits_left = self.waits_left - 1;
            CountdownStep::Wait
        } else if self.next >= 1 {
            let n = self.next;
            self.next = self.next - 1;
            self.waits_left = 9;
            CountdownStep::Announce(n)
        } else {
            CountdownStep::Begin
        }
    }
}

/// The steps of `k` checks in a row that all find no stop request.
pub open spec fn quiet_run(s: (int, nat), k: nat) -> Seq<CountdownStep>
    decreases k,
{
    if k == 0 {
        Seq::empty()
    } else {
        let (s2, a) = step_model(s, false);
        seq![a] + quiet_run(s2, (k - 1) as nat)
    }
}

/// `w` waits.
pub open spec fn waits(w: nat) -> Seq<CountdownStep> {
    Seq::new(w, |i: int| CountdownStep::Wait)
}

/// The undisturbed countdown from `n`: each second announced, from `n` down
/// to 1, and followed by its waits; then the start.
pub open spec fn countdown_script(n: int) -> Seq<CountdownStep>
    decreases n,
{
    if n <= 0 {
        seq![CountdownStep::Begin]
    } else {
        seq![CountdownStep::Announce(n as i64)] + waits(waits_per_second()) + countdown_script(n - 1)
    }
}

proof fn lemma_quiet_waits(n: int, w: nat, k: nat)
    ensures
        quiet_run((n, w), w + k) == waits(w) + quiet_run((n, 0), k),
    decreases w,
{
    if w > 0 {
        lemma_quiet_waits(n, (w - 1) as nat, k);
        assert(waits(w) == seq![CountdownStep::Wait] + waits((w - 1) as nat));
        assert(quiet_run((n, w), w + k) == seq![CountdownStep::Wait] + quiet_run(
            (n, (w - 1) as nat),
            (w - 1 + k) as nat,
        ));
    } else {
        assert(waits(0) == Seq::<CountdownStep>::empty());
    }
}

/// A countdown of `n` seconds (`n` a count an `i64` holds) that is never
/// asked to stop announces `n`, `n - 1`, ..., 1, each followed by nine
/// more waits (ten 100 ms waits per second in all), then starts: `10 n + 1`
/// steps.
pub proof fn law_quiet_countdown(n: int)
    requires
        0 <= n <= i64::MAX,
    ensures
        quiet_run((n, 0), (10 * n + 1) as nat) == countdown_script(n),
    decreases n,
{
    if n == 0 {
        reveal_with_fuel(quiet_run, 2);
    } else {
        law_quiet_countdown(n - 1);
        lemma_quiet_waits(n - 1, 9, (10 * (n - 1) + 1) as nat);
        assert(quiet_run((n, 0), (10 * n + 1) as nat) == seq![CountdownStep::Announce(n as i64)]
            + quiet_run((n - 1, 9), (10 * n) as nat));
        assert((9 + (10 * (n - 1) + 1)) as nat == (10 * n) as nat);
    }
}

/// Once a stop is requested, every check cancels, whatever the state.
pub proof fn law_stop_cancels(s: (int, nat))
    ensures
        step_model(s, true) == (s, CountdownStep::Cancel),
{
}

} // verus!
