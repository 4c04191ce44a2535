//! A run of the machine, step by step, with the steps kept as a history.
use crate::history::{History, HistoryView};
use crate::rule::Move;
use crate::transition::{Transition, TransitionView};
use crate::turing::{Turing, TuringError, TuringView};
use vstd::prelude::*;

verus! {

/// Whether a run goes on.
#[derive(Debug, Clone, Copy, PartialEq, Eq, Structural)]
pub enum AppState {
    /// The run goes on.
    Running,
    /// The run has ended.
    Quit,
}

impl Default for AppState {
    /// A run starts as running.
    fn default() -> (s: AppState)
        ensures
            s == AppState::Running,
    {
        AppState::Running
    }
}

/// What a session is, mathematically.
pub struct SessionView {
    /// Whether the run goes on.
    pub state: AppState,
    /// The machine.
    pub turing: TuringView,
    /// The steps taken so far.
    pub history: HistoryView,
    /// The number of steps kept after which a further step ends the run.
    pub max_iteration: nat,
}

impl SessionView {
    /// The machine's tape, and the tape of every step kept, has its head on
    /// a cell that it holds.
    pub open spec fn wf(self) -> bool {
        self.turing.tape.wf() && self.history.wf()
    }

    /// The session after one more step of the machine. A step is taken and
    /// kept where the machine has one; the run ends with it where it stops
    /// the machine, or where `max_iteration` steps were kept before it.
    /// Where the machine has no step the run ends and nothing else changes.
    pub open spec fn next_step(self) -> SessionView {
        match self.turing.next_transition() {
            Ok(t) => SessionView {
                state: if self.history.storage.len() >= self.max_iteration || t.rule.mov
                    == Move::Stop {
                    AppState::Quit
                } else {
                    self.state
                },
                turing: self.turing.apply_transition(t),
                history: self.history.add(t),
                ..self
            },
            Err(_) => SessionView { state: AppState::Quit, ..self },
        }
    }
}

/// A run of a machine: the machine, the steps that it has taken, and
/// whether the run goes on.
pub struct Session {
    state: AppState,
    turing: Turing,
    history: History,
    max_iteration: usize,
}

impl View for Session {
    type V = SessionView;

    closed spec fn view(&self) -> SessionView {
        SessionView {
            state: self.state,
            turing: self.turing@,
            history: self.history@,
            max_iteration: self.max_iteration as nat,
        }
    }
}

impl Session {
    /// What holds of every session that was made of a machine with a tape
    /// made by `Tape::new`, whatever steps it has taken since.
    pub open spec fn wf(&self) -> bool {
        self@.wf()
    }

    /// A run of `turing` that has taken no step yet and ends with the step
    /// after the thousandth.
    pub fn new(turing: Turing) -> (s: Session)
        ensures
            s@ == (SessionView {
                state: AppState::Running,
                turing: turing@,
                history: HistoryView { storage: Seq::empty(), offset: 0, follow: true },
                max_iteration: 1000,
            }),
    {
        let history = History::new(Vec::new(), 0, true);
        assert(history@.storage =~= Seq::<TransitionView>::empty());
        Session { state: AppState::Running, turing, history, max_iteration: 1000 }
    }

    /// Takes the machine's next step, keeps it and hands it out; or ends the
    /// run with the error that says why the machine has none.
    pub fn next_step(&mut self) -> (r: Result<Transition, TuringError>)
        requires
            old(self).wf(),
        ensures
            final(self).wf(),
            final(self)@ == old(self)@.next_step(),
            match r {
                Ok(t) => old(self)@.turing.next_transition() == Ok::<TransitionView, TuringError>(
                    t@,
                ),
                Err(e) => old(self)@.turing.next_transition() == Err::<
                    TransitionView,
                    TuringError,
                >(e),
            },
    {
        match self.turing.next_transition() {
            Ok(transition) => {
                self.turing.apply_transition(&transition);
                let stops = transition.rule().mov().is_terminal();
                if self.history.len() >= self.max_iteration || stops {
                    self.state = AppState::Quit;
                }
                self.history.add(transition.clone());
                Ok(transition)
            },
            Err(e) => {
                self.state = AppState::Quit;
                Err(e)
            },
        }
    }

    /// Whether the run goes on.
    pub fn is_running(&self) -> (b: bool)
        ensures
            b == (self@.state == AppState::Running),
    {
        self.state == AppState::Running
    }

    /// Ends the run.
    pub fn quit(&mut self)
        ensures
            final(self)@ == (SessionView { state: AppState::Quit, ..old(self)@ }),
    {
        self.state = AppState::Quit;
    }

    /// Scrolls the history towards older steps.
    pub fn scroll_up(&mut self)
        ensures
            final(self)@ == (SessionView { history: old(self)@.history.scroll_up(), ..old(self)@ }),
    {
        self.history.scroll_up();
    }

    /// Scrolls the history towards newer steps.
    pub fn scroll_down(&mut self)
        requires
            old(self)@.history.storage.len() > 0,
        ensures
            final(self)@ == (SessionView {
                history: old(self)@.history.scroll_down(),
                ..old(self)@
            }),
    {
        self.history.scroll_down();
    }

    /// The machine.
    pub fn turing(&self) -> (t: &Turing)
        ensures
            t@ == self@.turing,
    {
        &self.turing
    }

    /// The steps taken so far.
    pub fn history(&self) -> (h: &History)
        ensures
            h@ == self@.history,
    {
        &self.history
    }
}

/// A step leaves every tape of the session with its head on a cell that it
/// holds.
pub proof fn lemma_next_step_wf(s: SessionView)
    requires
        s.wf(),
    ensures
        s.next_step().wf(),
{
    if s.turing.next_transition() is Ok {
        let t = s.turing.next_transition()->Ok_0;
        crate::tape::lemma_apply_rule_at(s.turing.tape, t.rule, 0);
    }
}

/// The steps that a run keeps are never more than one above its limit
/// while it goes on: a step taken with the limit reached ends the run.
pub proof fn lemma_limit_ends_the_run(s: SessionView)
    requires
        s.history.storage.len() >= s.max_iteration,
    ensures
        s.next_step().state == AppState::Quit,
{
}

/// A step that stops the machine, and the lack of a step, end the run.
pub proof fn lemma_halt_ends_the_run(s: SessionView)
    ensures
        s.turing.next_transition() is Err ==> s.next_step() == (SessionView {
            state: AppState::Quit,
            ..s
        }),
        s.turing.next_transition() is Ok && s.turing.next_transition()->Ok_0.rule.mov
            == Move::Stop ==> s.next_step().state == AppState::Quit,
{
}

} // verus!
