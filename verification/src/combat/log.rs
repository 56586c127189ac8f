//! The combat log: the last eight lines, newest at the bottom.

use std::collections::VecDeque;
use vstd::prelude::*;

verus! {

/// How many lines the log keeps.
pub const CAP: usize = 8;

#[derive(Clone, Debug)]
pub struct CombatLog {
    lines: VecDeque<String>,
}

/// The last `cap` entries of a history.
pub open spec fn last_of<T>(history: Seq<T>, cap: int) -> Seq<T> {
    if history.len() <= cap {
        history
    } else {
        history.skip(history.len() - cap)
    }
}

/// The log after every line of a history was pushed in turn.
pub open spec fn log_of(history: Seq<Seq<char>>) -> Seq<Seq<char>>
    decreases history.len(),
{
    if history.len() == 0 {
        Seq::empty()
    } else {
        last_of(log_of(history.drop_last()).push(history.last()), CAP as int)
    }
}

impl CombatLog {
    /// The lines, oldest first.
    pub closed spec fn view(&self) -> Seq<Seq<char>> {
        self.lines@.map_values(|s: String| s@)
    }

    /// No more than eight lines are kept.
    pub open spec fn wf(&self) -> bool {
        self@.len() <= CAP
    }

    pub fn new() -> (r: Self)
        ensures
            r.wf(),
            r@ == Seq::<Seq<char>>::empty(),
    {
        let r = CombatLog { lines: VecDeque::new() };
        assert(r@ =~= Seq::<Seq<char>>::empty());
        r
    }

    /// Adds a line; the oldest leaves once there are more than eight.
    pub fn push(&mut self, line: String)
        requires
            old(self).wf(),
        ensures
            final(self).wf(),
            final(self)@ == last_of(old(self)@.push(line@), CAP as int),
    {
        self.lines.push_back(line);
        if self.lines.len() > CAP {
            let _ = self.lines.pop_front();
        }
        assert(self@ =~= last_of(old(self)@.push(line@), CAP as int));
    }

    /// The lines, oldest first.
    pub fn lines(&self) -> (r: Vec<&str>)
        ensures
            r@.len() == self@.len(),
            forall|i: int| 0 <= i < r@.len() ==> #[trigger] r@[i]@ == self@[i],
    {
        let mut out: Vec<&str> = Vec::new();
        let mut i: usize = 0;
        while i < self.lines.len()
            invariant
                i <= self.lines@.len(),
                out@.len() == i,
                forall|j: int| 0 <= j < i ==> #[trigger] out@[j]@ == self.lines@[j]@,
            decreases self.lines@.len() - i,
        {
            out.push(self.lines[i].as_str());
            i += 1;
        }
        out
    }

    pub fn is_empty(&self) -> (r: bool)
        ensures
            r == (self@.len() == 0),
    {
        self.lines.len() == 0
    }
}

/// Whatever was pushed, the log holds the last eight lines in the order they came.
pub proof fn law_log_keeps_last_eight(history: Seq<Seq<char>>)
    ensures
        log_of(history) == last_of(history, CAP as int),
    decreases history.len(),
{
    if history.len() > 0 {
        law_log_keeps_last_eight(history.drop_last());
        assert(log_of(history) =~= last_of(history, CAP as int));
    }
}

} // verus!
