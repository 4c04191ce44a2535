//! One step of the machine, as it is handed to whoever watches the run.
use crate::decimal::{decimal, push_decimal};
use crate::rule::{Rule, RuleState};
use crate::tape::{Tape, TapeView};
use crate::text::{push_str, to_string};
use vstd::prelude::*;

verus! {

/// What a transition is, mathematically.
pub struct TransitionView {
    /// The state of the machine before the step.
    pub state: RuleState,
    /// The tape before the step.
    pub tape: TapeView,
    /// The rule that the step applies.
    pub rule: Rule,
}

impl TransitionView {
    /// The report of the step: its number, the tape with the head's cell in
    /// brackets, the state and the symbol that the rule writes, the next
    /// state and the movement.
    pub open spec fn report(self, step: nat) -> Seq<char> {
        "=============== Step: "@ + decimal(step) + " ===============\nTape:\t"@
            + self.tape.render() + "\nState:\t\t"@ + decimal(self.state as nat) + "\tReplace:\t"@
            + seq![self.rule.write] + "\nNext state:\t"@ + decimal(self.rule.next_state as nat)
            + "\tMove:\t\t"@ + seq![self.rule.mov.marker()] + "\n"@
    }
}

/// One step of the machine: the state and the tape that it starts from, and
/// the rule that it applies. The tape is a copy of its own.
pub struct Transition {
    state: RuleState,
    tape: Tape,
    rule: Rule,
}

impl View for Transition {
    type V = TransitionView;

    closed spec fn view(&self) -> TransitionView {
        TransitionView { state: self.state, tape: self.tape@, rule: self.rule }
    }
}

impl Clone for Transition {
    /// A transition of its own with the same state, tape and rule.
    fn clone(&self) -> (t: Transition)
        ensures
            t@ == self@,
    {
        Transition { state: self.state, tape: self.tape.clone(), rule: self.rule }
    }
}

impl Transition {
    /// What holds of every transition that was made of a tape made by
    /// `Tape::new`.
    pub open spec fn wf(&self) -> bool {
        self@.tape.wf()
    }

    /// The step that starts in `state` with `tape` and applies `rule`.
    pub fn new(state: RuleState, tape: Tape, rule: Rule) -> (t: Transition)
        ensures
            t@ == (TransitionView { state, tape: tape@, rule }),
    {
        Transition { state, tape, rule }
    }

    /// The state of the machine before the step.
    pub fn state(&self) -> (s: &RuleState)
        ensures
            *s == self@.state,
    {
        &self.state
    }

    /// The tape before the step.
    pub fn tape(&self) -> (t: &Tape)
        ensures
            t@ == self@.tape,
    {
        &self.tape
    }

    /// The rule that the step applies.
    pub fn rule(&self) -> (r: &Rule)
        ensures
            *r == self@.rule,
    {
        &self.rule
    }

    /// The report of the step as number `step` of a run.
    pub fn report(&self, step: usize) -> (s: String)
        requires
            self.wf(),
        ensures
            s@ == self@.report(step as nat),
    {
        let mut out: Vec<char> = Vec::new();
        push_str(&mut out, "=============== Step: ");
        push_decimal(&mut out, step as u64);
        push_str(&mut out, " ===============\nTape:\t");
        let tape = self.tape.to_string();
        push_str(&mut out, tape.as_str());
        push_str(&mut out, "\nState:\t\t");
        push_decimal(&mut out, self.state as u64);
        push_str(&mut out, "\tReplace:\t");
        out.push(self.rule.write);
        push_str(&mut out, "\nNext state:\t");
        push_decimal(&mut out, self.rule.next_state as u64);
        push_str(&mut out, "\tMove:\t\t");
        out.push(self.rule.mov.symbol());
        push_str(&mut out, "\n");
        assert(out@ =~= self@.report(step as nat));
        to_string(&out)
    }
}

} // verus!
