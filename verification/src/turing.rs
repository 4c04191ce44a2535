//! The machine: a tape, a state and a table of rules.
use crate::rule::RuleState;
use crate::ruleset::{Ruleset, RulesetError, RulesetView};
use crate::tape::{Tape, TapeView};
use crate::text::{push_str, to_string};
use crate::transition::{Transition, TransitionView};
use vstd::prelude::*;

verus! {

/// Why the machine cannot take a step.
#[derive(Copy, Clone, PartialEq, Eq, Debug, Structural)]
pub enum TuringError {
    /// The table has no rule for the machine's state and the symbol under
    /// the head.
    RuleNotFound { rule_error: RulesetError },
}

impl TuringError {
    /// What is reported to the user for this error.
    pub open spec fn message(self) -> Seq<char> {
        match self {
            TuringError::RuleNotFound { rule_error } => "Rule not found: "@ + rule_error.message(),
        }
    }

    /// The error in words.
    pub fn to_string(&self) -> (s: String)
        ensures
            s@ == self.message(),
    {
        let mut out: Vec<char> = Vec::new();
        match self {
            TuringError::RuleNotFound { rule_error } => {
                push_str(&mut out, "Rule not found: ");
                let reason = rule_error.to_string();
                push_str(&mut out, reason.as_str());
            },
        }
        to_string(&out)
    }
}

/// What a machine is, mathematically.
pub struct TuringView {
    /// The state that the machine is in.
    pub state: RuleState,
    /// The machine's tape.
    pub tape: TapeView,
    /// The machine's table.
    pub rules: RulesetView,
}

impl TuringView {
    /// The step that the machine takes next: its state, its tape and the
    /// rule for its state and the symbol under the head; or the error that
    /// says that the table has no such rule.
    pub open spec fn next_transition(self) -> Result<TransitionView, TuringError> {
        match self.rules.find(self.state, self.tape.read()) {
            Ok(rule) => Ok(TransitionView { state: self.state, tape: self.tape, rule }),
            Err(rule_error) => Err(TuringError::RuleNotFound { rule_error }),
        }
    }

    /// The machine after the step `t`: in the rule's next state, with the
    /// rule applied to the tape, and with the same table.
    pub open spec fn apply_transition(self, t: TransitionView) -> TuringView {
        TuringView {
            state: t.rule.next_state,
            tape: self.tape.apply_rule(t.rule),
            rules: self.rules,
        }
    }
}

/// The machine.
pub struct Turing {
    state: RuleState,
    tape: Tape,
    rules: Ruleset,
}

impl View for Turing {
    type V = TuringView;

    closed spec fn view(&self) -> TuringView {
        TuringView { state: self.state, tape: self.tape@, rules: self.rules@ }
    }
}

impl Turing {
    /// What holds of every machine that was made of a tape made by
    /// `Tape::new`, whatever steps it has taken since.
    pub open spec fn wf(&self) -> bool {
        self@.tape.wf()
    }

    /// The machine in `state` with `tape` and the table `rules`.
    pub fn new(tape: Tape, state: RuleState, rules: Ruleset) -> (t: Turing)
        ensures
            t@ == (TuringView { state, tape: tape@, rules: rules@ }),
    {
        Turing { state, tape, rules }
    }

    /// The step that the machine takes next. The machine stays as it is.
    pub fn next_transition(&self) -> (r: Result<Transition, TuringError>)
        requires
            self.wf(),
        ensures
            match r {
                Ok(t) => self@.next_transition() == Ok::<TransitionView, TuringError>(t@),
                Err(e) => self@.next_transition() == Err::<TransitionView, TuringError>(e),
            },
    {
        let current_symbol = self.tape.read();
        match self.rules.find(&self.state, &current_symbol) {
            Ok(rule) => Ok(Transition::new(self.state, self.tape.clone(), rule)),
            Err(rule_error) => Err(TuringError::RuleNotFound { rule_error }),
        }
    }

    /// Takes the step `transition`: goes to the rule's next state and
    /// applies the rule to the tape.
    pub fn apply_transition(&mut self, transition: &Transition)
        requires
            old(self).wf(),
        ensures
            final(self).wf(),
            final(self)@ == old(self)@.apply_transition(transition@),
    {
        self.state = transition.rule().next_state;
        self.tape.apply_rule(transition.rule());
    }

    /// The machine's tape.
    pub fn tape(&self) -> (t: &Tape)
        ensures
            t@ == self@.tape,
    {
        &self.tape
    }

    /// The machine's table.
    pub fn ruleset(&self) -> (r: &Ruleset)
        ensures
            r@ == self@.rules,
    {
        &self.rules
    }

    /// The state that the machine is in.
    pub fn state(&self) -> (s: RuleState)
        ensures
            s == self@.state,
    {
        self.state
    }
}

/// A machine whose table has no rule for its state and the symbol under its
/// head has no next step; any other machine has one, with that rule.
pub proof fn lemma_stuck(m: TuringView)
    ensures
        m.next_transition() is Err <==> !m.rules.rules.contains_key((m.state, m.tape.read())),
        m.next_transition() is Err ==> m.next_transition() == Err::<TransitionView, TuringError>(
            TuringError::RuleNotFound {
                rule_error: RulesetError::RuleNotFound {
                    state: m.state,
                    symbol: m.tape.read(),
                },
            },
        ),
        m.next_transition() is Ok ==> m.next_transition()->Ok_0 == (TransitionView {
            state: m.state,
            tape: m.tape,
            rule: m.rules.rules[(m.state, m.tape.read())],
        }),
{
}

} // verus!
