//! A whole run, from the countdown to the end of typing, as a state machine:
//! the caller answers each stop check and carries out what each step asks
//! for; the run decides when and why it ends and how much was sent.
use vstd::prelude::*;
use crate::cli::{finish_code, stop_reason, stop_reason_of, CancelReason};
use crate::gui::{worker_end_of, WorkerEnd};
use crate::countdown::{step_model, Countdown, CountdownStep};
use crate::engine::{law_progress_counts_characters, non_newlines, reports, typing_plan_of, TypingAction, TypingRun};

verus! {

/// What a step of a run asks the caller to do.
#[derive(Debug, Clone, Copy, PartialEq, Eq, Structural)]
pub enum SessionStep {
    /// Countdown: show that this many seconds remain, then wait 100 ms.
    Announce(i64),
    /// Countdown: wait 100 ms.
    Wait,
    /// The countdown is over; typing starts with the next step.
    Begin,
    /// Typing: carry out this action (a stop check needs nothing more).
    Act(TypingAction),
    /// A stop was requested during the countdown: nothing was typed.
    Cancelled,
    /// Typing has ended; the outcome says why and how much was sent.
    Finished,
}

/// Where a run stands, as values: the countdown, whether typing has
/// begun, how many typing actions are done, and how the run ended.
pub struct RunState {
    pub countdown: (int, nat),
    pub typing: bool,
    pub position: nat,
    pub result: Option<(Option<CancelReason>, nat)>,
}

/// The state of a run that has not started: a countdown of `seconds`.
pub open spec fn initial_state(seconds: int) -> RunState {
    RunState { countdown: (seconds, 0), typing: false, position: 0, result: None }
}

/// One step of a run typing `text` from state `s`, given the user's stop
/// request and the corner answer. An ended run stays as it is.
pub open spec fn next_state(
    s: RunState,
    text: Seq<char>,
    failsafe: bool,
    user_stop: bool,
    corner: bool,
) -> RunState {
    if s.result is Some {
        s
    } else if !s.typing {
        let (c, st) = step_model(s.countdown, user_stop);
        match st {
            CountdownStep::Begin => RunState { countdown: c, typing: true, ..s },
            CountdownStep::Cancel => RunState {
                countdown: c,
                result: Some((Some(CancelReason::CtrlC), 0nat)),
                ..s
            },
            _ => RunState { countdown: c, ..s },
        }
    } else {
        let plan = typing_plan_of(text);
        if s.position >= plan.len() {
            RunState { result: Some((None, non_newlines(text))), ..s }
        } else if plan[s.position as int] == TypingAction::CheckCancel && stop_reason_of(
            user_stop,
            failsafe,
            corner,
        ) is Some {
            RunState {
                result: Some(
                    (
                        stop_reason_of(user_stop, failsafe, corner),
                        reports(plan.take(s.position as int)).len(),
                    ),
                ),
                ..s
            }
        } else {
            RunState { position: s.position + 1, ..s }
        }
    }
}

/// The state after answering the stop checks of a run one answer per step:
/// (stop request, corner) for each step in turn.
pub open spec fn run_after(
    s0: RunState,
    text: Seq<char>,
    failsafe: bool,
    answers: Seq<(bool, bool)>,
) -> RunState
    decreases answers.len(),
{
    if answers.len() == 0 {
        s0
    } else {
        next_state(
            run_after(s0, text, failsafe, answers.drop_last()),
            text,
            failsafe,
            answers.last().0,
            answers.last().1,
        )
    }
}

/// A run: the countdown, then the typing of a text.
pub struct Session {
    timer: Countdown,
    run: TypingRun,
    failsafe: bool,
    typing: bool,
    result: Option<(Option<CancelReason>, usize)>,
}

impl Session {
    #[verifier::type_invariant]
    spec fn well_formed(self) -> bool {
        &&& !self.run.is_stopped()
        &&& !self.typing ==> self.run.position() == 0
        &&& (self.result matches Some((None, n)) ==> n == non_newlines(self.run.text()))
    }

    /// The text to type.
    pub closed spec fn text(self) -> Seq<char> {
        self.run.text()
    }

    /// Whether the emergency stop (mouse in a screen corner) is on.
    pub closed spec fn failsafe(self) -> bool {
        self.failsafe
    }

    /// Whether the countdown is over.
    pub closed spec fn typing(self) -> bool {
        self.typing
    }

    /// Where the countdown stands.
    pub closed spec fn countdown_state(self) -> (int, nat) {
        self.timer.state()
    }

    /// How many typing actions are done.
    pub closed spec fn position(self) -> nat {
        self.run.position()
    }

    /// How the run ended, once it has: the stop reason (none when
    /// everything was typed) and the number of characters sent.
    pub closed spec fn result(self) -> Option<(Option<CancelReason>, usize)> {
        self.result
    }

    /// The run as values.
    pub open spec fn run_state(self) -> RunState {
        RunState {
            countdown: self.countdown_state(),
            typing: self.typing(),
            position: self.position(),
            result: match self.result() {
                Some((r, n)) => Some((r, n as nat)),
                None => None,
            },
        }
    }

    /// The typing actions of the run.
    pub open spec fn plan(self) -> Seq<TypingAction> {
        typing_plan_of(self.text())
    }

    /// A run that counts down `countdown` seconds (none below 1), then types
    /// `text`; `failsafe` turns the emergency stop on.
    pub fn new(countdown: i64, text: &str, failsafe: bool) -> (s: Session)
        ensures
            s.text() == text@,
            s.failsafe() == failsafe,
            !s.typing(),
            s.countdown_state() == (countdown as int, 0nat),
            s.result() is None,
            s.run_state() == initial_state(countdown as int),
    {
        Session {
            timer: Countdown::new(countdown),
            run: TypingRun::new(text),
            failsafe,
            typing: false,
            result: None,
        }
    }

    /// Whether the next step is a stop check of typing that reads the mouse:
    /// the emergency stop is on, and the run is typing and at a stop check.
    pub fn wants_corner(&self) -> (r: bool)
        ensures
            r == (self.result() is None && self.typing() && self.failsafe() && self.position()
                < self.plan().len() && self.plan()[self.position() as int]
                == TypingAction::CheckCancel),
    {
        proof {
            use_type_invariant(self);
        }
        if self.result.is_some() || !self.typing || !self.failsafe {
            return false;
        }
        match self.run.current() {
            Some(TypingAction::CheckCancel) => true,
            _ => false,
        }
    }

    /// The next step. `user_stop` is the user's stop request (Ctrl+C, or the
    /// Stop button), read at every stop check; `corner` says whether the
    /// mouse is in a screen corner, read only at a stop check of typing when
    /// the emergency stop is on. A stop check during the countdown cancels
    /// the run on a stop request; one during typing ends it with the reason
    /// `stop_reason_of` gives. Typing to the end ends the run with no reason and
    /// every character that is not a line feed sent.
    pub fn step(&mut self, user_stop: bool, corner: bool) -> (s: SessionStep)
        ensures
            final(self).text() == old(self).text(),
            final(self).failsafe() == old(self).failsafe(),
            final(self).run_state() == next_state(
                old(self).run_state(),
                old(self).text(),
                old(self).failsafe(),
                user_stop,
                corner,
            ),
            old(self).result() is Some ==> s == SessionStep::Finished && final(self).result()
                == old(self).result(),
            old(self).result() is None && !old(self).typing() ==> ({
                let (next, c) = step_model(old(self).countdown_state(), user_stop);
                &&& final(self).countdown_state() == next
                &&& match c {
                    CountdownStep::Announce(i) => s == SessionStep::Announce(i)
                        && final(self).typing() == false && final(self).result() is None,
                    CountdownStep::Wait => s == SessionStep::Wait && final(self).typing() == false
                        && final(self).result() is None,
                    CountdownStep::Begin => s == SessionStep::Begin && final(self).typing()
                        && final(self).position() == 0 && final(self).result() is None,
                    CountdownStep::Cancel => s == SessionStep::Cancelled && final(self).result()
                        == Some((Some(CancelReason::CtrlC), 0usize)),
                }
            }),
            old(self).result() is None && old(self).typing() ==> final(self).typing() && if old(self).position() >= old(self).plan().len() {
                s == SessionStep::Finished && final(self).result() == Some(
                    (None::<CancelReason>, non_newlines(old(self).text()) as usize),
                )
            } else {
                let a = old(self).plan()[old(self).position() as int];
                let r = stop_reason_of(user_stop, old(self).failsafe(), corner);
                if a == TypingAction::CheckCancel && r is Some {
                    s == SessionStep::Finished && final(self).position() == old(self).position()
                        && final(self).result() == Some(
                        (
                            r,
                            reports(old(self).plan().take(old(self).position() as int)).len()
                                as usize,
                        ),
                    )
                } else {
                    s == SessionStep::Act(a) && final(self).position() == old(self).position() + 1
                        && final(self).result() is None
                }
            },
    {
        proof {
            use_type_invariant(&*self);
        }
        if self.result.is_some() {
            return SessionStep::Finished;
        }
        if !self.typing {
            return match self.timer.step(user_stop) {
                CountdownStep::Announce(i) => SessionStep::Announce(i),
                CountdownStep::Wait => SessionStep::Wait,
                CountdownStep::Begin => {
                    self.typing = true;
                    SessionStep::Begin
                },
                CountdownStep::Cancel => {
                    self.result = Some((Some(CancelReason::CtrlC), 0));
                    SessionStep::Cancelled
                },
            };
        }
        let sent = self.run.chars_sent();
        match self.run.current() {
            None => {
                proof {
                    law_progress_counts_characters(self.run.text());
                    assert(self.run.plan().take(self.run.position() as int) =~= self.run.plan());
                }
                self.result = Some((None, sent));
                SessionStep::Finished
            },
            Some(a) => {
                let r = match a {
                    TypingAction::CheckCancel => stop_reason(user_stop, self.failsafe, corner),
                    _ => None,
                };
                match r {
                    Some(reason) => {
                        self.result = Some((Some(reason), sent));
                        SessionStep::Finished
                    },
                    None => {
                        self.run.advance(false);
                        SessionStep::Act(a)
                    },
                }
            },
        }
    }

    /// How the run ended; `None` while it goes on. A run that ended without
    /// a stop sent every character that is not a line feed.
    pub fn outcome(&self) -> (r: Option<(Option<CancelReason>, usize)>)
        ensures
            r == self.result(),
            r matches Some((None, n)) ==> n == non_newlines(self.text()),
    {
        proof {
            use_type_invariant(self);
        }
        self.result
    }
}


/// An ended run stays as it is.
proof fn lemma_ended_stays(s: RunState, text: Seq<char>, failsafe: bool, answers: Seq<(bool, bool)>)
    requires
        s.result is Some,
    ensures
        run_after(s, text, failsafe, answers) == s,
    decreases answers.len(),
{
    if answers.len() > 0 {
        lemma_ended_stays(s, text, failsafe, answers.drop_last());
    }
}

/// The step at which a run ends, with a stop: the run had not ended before
/// answer `k`, and answer `k` ended it with its reason.
pub open spec fn stopped_at(
    s0: RunState,
    text: Seq<char>,
    failsafe: bool,
    answers: Seq<(bool, bool)>,
    k: int,
) -> bool {
    &&& 0 <= k < answers.len()
    &&& run_after(s0, text, failsafe, answers.take(k)).result is None
    &&& run_after(s0, text, failsafe, answers.take(k + 1)).result == run_after(
        s0,
        text,
        failsafe,
        answers,
    ).result
}

/// A whole command-line run, its stop checks answered in turn by `answers`
/// (the Ctrl+C flag, and whether the mouse is in a screen corner): once it
/// has ended, its exit code (`finish_code`, which `cli_finish` gives) is
/// 0 when it typed to the end, every character that is not a line feed
/// sent, after the countdown. Otherwise some answer `k` ended it, the first to stop it: the code
/// is 3 exactly when that answer saw Ctrl+C, which during the countdown
/// means nothing was typed; and 2 exactly when it did not, the emergency
/// stop was on, typing had begun and the mouse was in a corner.
pub proof fn law_command_line_exit_code(
    seconds: int,
    text: Seq<char>,
    failsafe: bool,
    answers: Seq<(bool, bool)>,
)
    ensures
        ({
            let s0 = initial_state(seconds);
            let f = run_after(s0, text, failsafe, answers);
            &&& f.result matches Some((None, n)) ==> finish_code(None) == 0 && n == non_newlines(text)
                && f.typing
            &&& f.result matches Some((Some(r), n)) ==> exists|k: int|
                #[trigger] stopped_at(s0, text, failsafe, answers, k) && (finish_code(Some(r)) == 3
                    <==> answers[k].0) && (finish_code(Some(r)) == 2 <==> (!answers[k].0
                    && failsafe && answers[k].1 && run_after(
                    s0,
                    text,
                    failsafe,
                    answers.take(k),
                ).typing)) && (!run_after(s0, text, failsafe, answers.take(k)).typing ==> r
                    == CancelReason::CtrlC && n == 0)
        }),
    decreases answers.len(),
{
    let s0 = initial_state(seconds);
    let f = run_after(s0, text, failsafe, answers);
    if answers.len() == 0 {
        return;
    }
    let front = answers.drop_last();
    let prev = run_after(s0, text, failsafe, front);
    law_command_line_exit_code(seconds, text, failsafe, front);
    if prev.result is Some {
        lemma_ended_stays(prev, text, failsafe, seq![answers.last()]);
        assert(seq![answers.last()].drop_last() =~= Seq::<(bool, bool)>::empty());
        assert(f == prev);
        if let Some((Some(r), n)) = f.result {
            let k = choose|k: int| #[trigger] stopped_at(s0, text, failsafe, front, k) && (
            finish_code(Some(r)) == 3 <==> front[k].0) && (finish_code(Some(r)) == 2 <==> (
            !front[k].0 && failsafe && front[k].1 && run_after(
                s0,
                text,
                failsafe,
                front.take(k),
            ).typing)) && (!run_after(s0, text, failsafe, front.take(k)).typing ==> r
                == CancelReason::CtrlC && n == 0);
            assert(front.take(k) =~= answers.take(k));
            assert(front.take(k + 1) =~= answers.take(k + 1));
            assert(front[k] == answers[k]);
            assert(stopped_at(s0, text, failsafe, answers, k));
        }
    } else {
        let k = answers.len() - 1;
        assert(answers.take(k) =~= front);
        assert(answers.take(k + 1) =~= answers);
        if let Some((Some(r), n)) = f.result {
            assert(stopped_at(s0, text, failsafe, answers, k));
        }
    }
}

/// A whole run of the window's worker, its stop checks answered in turn by
/// `answers` (the Stop button, and whether the mouse is in a screen corner),
/// the Stop button staying pressed once pressed, and `stop_at_end` whether
/// it is seen pressed when typing ends. A run that ended during the
/// countdown was cancelled by the Stop button with nothing typed. One that
/// ended during typing shows the status of `worker_end_of`: the stopped
/// status when the button is pressed at the end; else the emergency-stop
/// status exactly when the emergency stop ended it; else the finished
/// status, with progress at 100, after typing every character that is not
/// a line feed.
pub proof fn law_window_worker_status(
    seconds: int,
    text: Seq<char>,
    failsafe: bool,
    answers: Seq<(bool, bool)>,
    stop_at_end: bool,
)
    requires
        forall|i: int, j: int| 0 <= i < j < answers.len() && #[trigger] answers[i].0 ==> #[trigger] answers[j].0,
        answers.len() > 0 && answers.last().0 ==> stop_at_end,
    ensures
        ({
            let f = run_after(initial_state(seconds), text, failsafe, answers);
            &&& f.result is Some && !f.typing ==> f.result == Some((Some(CancelReason::CtrlC), 0nat))
            &&& f.result is Some && f.typing ==> ({
                let (r, n) = f.result->0;
                let end = worker_end_of(stop_at_end, r == Some(CancelReason::FailSafe));
                &&& end == WorkerEnd::EmergencyStop ==> r == Some(CancelReason::FailSafe)
                &&& end == WorkerEnd::Completed ==> r is None && n == non_newlines(text)
            })
        }),
{
    let s0 = initial_state(seconds);
    let f = run_after(s0, text, failsafe, answers);
    law_command_line_exit_code(seconds, text, failsafe, answers);
    if let Some((Some(r), n)) = f.result {
        let k = choose|k: int| #[trigger] stopped_at(s0, text, failsafe, answers, k) && (
        finish_code(Some(r)) == 3 <==> answers[k].0) && (finish_code(Some(r)) == 2 <==> (
        !answers[k].0 && failsafe && answers[k].1 && run_after(
            s0,
            text,
            failsafe,
            answers.take(k),
        ).typing)) && (!run_after(s0, text, failsafe, answers.take(k)).typing ==> r
            == CancelReason::CtrlC && n == 0);
        lemma_typing_stays(s0, text, failsafe, answers, k);
        if r == CancelReason::CtrlC {
            if k < answers.len() - 1 {
                assert(answers[k].0 ==> answers[answers.len() - 1].0);
            }
            assert(answers.last() == answers[answers.len() - 1]);
        }
    }
}

/// Once typing has begun it goes on; and a run still counting down at its
/// end counted down all along.
proof fn lemma_typing_stays(
    s0: RunState,
    text: Seq<char>,
    failsafe: bool,
    answers: Seq<(bool, bool)>,
    k: int,
)
    requires
        0 <= k <= answers.len(),
    ensures
        run_after(s0, text, failsafe, answers.take(k)).typing ==> run_after(
            s0,
            text,
            failsafe,
            answers,
        ).typing,
    decreases answers.len(),
{
    if k < answers.len() {
        let front = answers.drop_last();
        assert(front.take(k) =~= answers.take(k));
        lemma_typing_stays(s0, text, failsafe, front, k);
    } else {
        assert(answers.take(k) =~= answers);
    }
}

} // verus!
