//! The steps that a run has taken, and the part of them that is on show.
use crate::transition::{Transition, TransitionView};
use vstd::prelude::*;

verus! {

/// What a history is, mathematically.
pub struct HistoryView {
    /// The steps, oldest first.
    pub storage: Seq<TransitionView>,
    /// The first step on show while the newest steps are not followed.
    pub offset: nat,
    /// Whether what is on show follows the newest steps.
    pub follow: bool,
}

/// `a - b`, or zero where `b` is more than `a`.
pub open spec fn minus(a: nat, b: nat) -> nat {
    if a >= b {
        (a - b) as nat
    } else {
        0
    }
}

/// The smaller of `a` and `b`.
pub open spec fn least(a: nat, b: nat) -> nat {
    if a <= b {
        a
    } else {
        b
    }
}

impl HistoryView {
    /// Every step holds a tape with its head on a cell that it holds.
    pub open spec fn wf(self) -> bool {
        forall|i: int| 0 <= i < self.storage.len() ==> (#[trigger] self.storage[i]).tape.wf()
    }

    /// The history with the step `t` added as the newest.
    pub open spec fn add(self, t: TransitionView) -> HistoryView {
        HistoryView { storage: self.storage.push(t), ..self }
    }

    /// The history after a scroll towards older steps: following stops two
    /// steps before the end; without following, the first step on show is
    /// one step older, down to the oldest.
    pub open spec fn scroll_up(self) -> HistoryView {
        if self.follow {
            HistoryView { follow: false, offset: minus(self.storage.len(), 2), ..self }
        } else {
            HistoryView { offset: minus(self.offset, 1), ..self }
        }
    }

    /// The history after a scroll towards newer steps: the first step on
    /// show is one step newer, up to the newest; where it is the newest
    /// already, the newest steps are followed again.
    pub open spec fn scroll_down(self) -> HistoryView
        recommends
            self.storage.len() > 0,
    {
        let offset = least(self.offset + 1, (self.storage.len() - 1) as nat);
        HistoryView {
            follow: self.follow || self.offset == offset,
            offset,
            ..self
        }
    }

    /// The first step on show where `capacity` steps fit: while following,
    /// the one from which the newest steps just fit; else the one scrolled
    /// to.
    pub open spec fn first_shown(self, capacity: nat) -> nat {
        if self.follow {
            minus(self.storage.len(), capacity)
        } else {
            self.offset
        }
    }

    /// How many steps are on show where `capacity` steps fit.
    pub open spec fn shown(self, capacity: nat) -> nat
        recommends
            self.first_shown(capacity) <= self.storage.len(),
    {
        least(capacity, (self.storage.len() - self.first_shown(capacity)) as nat)
    }
}

/// The steps that a run has taken, and where a viewer has scrolled to.
pub struct History {
    storage: Vec<Transition>,
    offset: usize,
    follow: bool,
}

/// The views of the elements of `steps`, in order.
pub open spec fn step_views(steps: Seq<Transition>) -> Seq<TransitionView> {
    Seq::new(steps.len(), |i: int| steps[i]@)
}

impl View for History {
    type V = HistoryView;

    closed spec fn view(&self) -> HistoryView {
        HistoryView {
            storage: step_views(self.storage@),
            offset: self.offset as nat,
            follow: self.follow,
        }
    }
}

impl History {
    /// What holds of every history that was made of steps with tapes made
    /// by `Tape::new`.
    pub open spec fn wf(&self) -> bool {
        self@.wf()
    }

    /// The history of the steps `storage`, scrolled to `offset`, following
    /// the newest steps or not.
    pub fn new(storage: Vec<Transition>, offset: usize, follow: bool) -> (h: History)
        ensures
            h@ == (HistoryView { storage: step_views(storage@), offset: offset as nat, follow }),
    {
        History { storage, offset, follow }
    }

    /// Adds `transition` as the newest step and gives the number of steps.
    pub fn add(&mut self, transition: Transition) -> (n: usize)
        ensures
            final(self)@ == old(self)@.add(transition@),
            n == final(self)@.storage.len(),
    {
        let ghost before = step_views(self.storage@);
        self.storage.push(transition);
        assert(step_views(self.storage@) =~= before.push(transition@));
        self.storage.len()
    }

    /// Scrolls towards older steps.
    pub fn scroll_up(&mut self)
        ensures
            final(self)@ == old(self)@.scroll_up(),
    {
        if self.follow {
            self.follow = false;
            let n = self.storage.len();
            self.offset = if n >= 2 {
                n - 2
            } else {
                0
            };
        } else {
            self.offset = if self.offset >= 1 {
                self.offset - 1
            } else {
                0
            };
        }
    }

    /// Scrolls towards newer steps.
    pub fn scroll_down(&mut self)
        requires
            old(self)@.storage.len() > 0,
        ensures
            final(self)@ == old(self)@.scroll_down(),
    {
        let last = self.storage.len() - 1;
        let offset = if self.offset < last {
            self.offset + 1
        } else {
            last
        };
        if !self.follow && self.offset == offset {
            self.follow = true;
        }
        self.offset = offset;
    }

    /// The steps, oldest first.
    pub fn storage(&self) -> (s: &Vec<Transition>)
        ensures
            step_views(s@) == self@.storage,
    {
        &self.storage
    }

    /// The number of steps.
    pub fn len(&self) -> (n: usize)
        ensures
            n == self@.storage.len(),
    {
        self.storage.len()
    }

    /// The first step on show while the newest steps are not followed.
    pub fn offset(&self) -> (o: usize)
        ensures
            o == self@.offset,
    {
        self.offset
    }

    /// Whether what is on show follows the newest steps.
    pub fn follow(&self) -> (f: bool)
        ensures
            f == self@.follow,
    {
        self.follow
    }

    /// The first step on show and the number of steps on show, where
    /// `capacity` steps fit.
    pub fn window(&self, capacity: usize) -> (w: (usize, usize))
        requires
            self@.follow || self@.offset <= self@.storage.len(),
        ensures
            w.0 == self@.first_shown(capacity as nat),
            w.1 == self@.shown(capacity as nat),
            w.0 + w.1 <= self@.storage.len(),
    {
        let n = self.storage.len();
        let first = if self.follow {
            if n >= capacity {
                n - capacity
            } else {
                0
            }
        } else {
            self.offset
        };
        let rest = n - first;
        let shown = if capacity <= rest {
            capacity
        } else {
            rest
        };
        (first, shown)
    }
}

} // verus!
