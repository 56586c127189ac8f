//! What pressing an action comes to, and what a hostile does with its turn.

use crate::combat::log::{last_of, CombatLog, CAP};
use crate::combat::math::TICK;
use crate::combat::number::{diff_of, greater, minus, most};
use crate::combat::hostile_ai::HostileState;
use crate::gamedata::kinds::ActionTarget;
use crate::gamedata::model::{Action, ActionEffect};
use crate::measure::{Real, SIGN};
use crate::text::owned;
use vstd::prelude::*;

verus! {

/// Why an action did not start.
#[derive(Clone, Copy, Debug, PartialEq, Eq, Structural)]
pub enum FailTell {
    NoTarget,
    NotEnoughMana,
    OutOfRange,
}

pub open spec fn fail_text(f: FailTell) -> Seq<char> {
    match f {
        FailTell::NoTarget => "No target"@,
        FailTell::NotEnoughMana => "Not enough mana"@,
        FailTell::OutOfRange => "Out of range"@,
    }
}

impl FailTell {
    pub fn as_str(self) -> (r: &'static str)
        ensures
            r@ == fail_text(self),
    {
        match self {
            FailTell::NoTarget => "No target",
            FailTell::NotEnoughMana => "Not enough mana",
            FailTell::OutOfRange => "Out of range",
        }
    }
}

/// How long a failure is shown: 1.2 seconds.
pub const FAIL_TELL_S: i128 = 1_383_505_805_528_216_320;

/// The failure on show, and how long it still is.
#[derive(Clone, Copy, Debug, PartialEq, Eq, Structural)]
pub struct FailBoard {
    pub tell: Option<FailTell>,
    pub left_s: i128,
}

impl FailBoard {
    pub fn new() -> (r: Self)
        ensures
            r == (FailBoard { tell: None, left_s: 0 }),
    {
        FailBoard { tell: None, left_s: 0 }
    }

    /// Shows a failure and writes it to the log.
    pub fn note_fail(&mut self, log: &mut CombatLog, f: FailTell)
        requires
            old(log).wf(),
        ensures
            *final(self) == (FailBoard { tell: Some(f), left_s: FAIL_TELL_S }),
            final(log).wf(),
            final(log)@ == last_of(old(log)@.push(fail_text(f)), CAP as int),
    {
        log.push(owned(f.as_str()));
        *self = FailBoard { tell: Some(f), left_s: FAIL_TELL_S };
    }

    /// The board a tenth of a second later.
    pub open spec fn later(self) -> FailBoard {
        let left = greater(diff_of(self.left_s, TICK), 0);
        FailBoard {
            tell: if left == 0 {
                None
            } else {
                self.tell
            },
            left_s: left,
        }
    }

    pub fn tick(&mut self)
        ensures
            *final(self) == old(self).later(),
    {
        let left: i128 = most(minus(self.left_s, TICK), 0);
        let tell: Option<FailTell> = if left == 0 {
            None
        } else {
            self.tell
        };
        *self = FailBoard { tell, left_s: left };
    }

    /// The failure on show.
    pub fn fail_tell(&self) -> (r: Option<FailTell>)
        ensures
            r == if self.left_s > 0 {
                self.tell
            } else {
                None
            },
    {
        if self.left_s > 0 {
            self.tell
        } else {
            None
        }
    }
}

/// What is known when an action is pressed.
#[derive(Clone, Copy, Debug, PartialEq, Eq, Structural)]
pub struct PressFacts {
    pub dead: bool,
    pub can_act: bool,
    pub casting: bool,
    /// The action is still cooling down.
    pub cooling: bool,
    pub lock: Option<i32>,
    /// The locked hostile is seated and alive.
    pub lock_alive: bool,
    pub mana_suffices: bool,
    /// The action takes time to cast.
    pub takes_time: bool,
}

/// What a press comes to.
#[derive(Clone, Copy, Debug, PartialEq, Eq, Structural)]
pub enum Press {
    /// Nothing happens.
    Ignored,
    Failed(FailTell),
    /// A cast starts at the target.
    Cast(Option<i32>),
    /// The action is carried out at once.
    Finish(Option<i32>),
}

/// Whether an action is aimed at the lock.
pub open spec fn aimed(target: ActionTarget) -> bool {
    target == ActionTarget::Hostile || target == ActionTarget::Any
}

/// Whether a press is passed over, whatever the action is aimed at.
pub open spec fn passed_over(f: PressFacts) -> bool {
    f.dead || !f.can_act || f.casting || f.cooling
}

/// What pressing an action comes to.
pub open spec fn press_of(target: ActionTarget, f: PressFacts) -> Press {
    if passed_over(f) {
        Press::Ignored
    } else if aimed(target) && (f.lock is None || !f.lock_alive) {
        Press::Failed(FailTell::NoTarget)
    } else if !f.mana_suffices {
        Press::Failed(FailTell::NotEnoughMana)
    } else {
        let at = if aimed(target) {
            f.lock
        } else {
            None
        };
        if f.takes_time {
            Press::Cast(at)
        } else {
            Press::Finish(at)
        }
    }
}

/// Presses an action. One without a target cannot be carried out at all, so it may be
/// pressed only where the press is passed over.
pub fn press_action(target: ActionTarget, f: PressFacts) -> (r: Press)
    requires
        passed_over(f) || target != ActionTarget::Nothing,
    ensures
        r == press_of(target, f),
{
    if f.dead || !f.can_act || f.casting {
        return Press::Ignored;
    }
    if f.cooling {
        return Press::Ignored;
    }
    let at: Option<i32> = match target {
        ActionTarget::ActorSelf | ActionTarget::Friendly | ActionTarget::Nothing => None,
        ActionTarget::Hostile | ActionTarget::Any => {
            if f.lock.is_none() || !f.lock_alive {
                return Press::Failed(FailTell::NoTarget);
            }
            f.lock
        },
    };
    if !f.mana_suffices {
        return Press::Failed(FailTell::NotEnoughMana);
    }
    if f.takes_time {
        Press::Cast(at)
    } else {
        Press::Finish(at)
    }
}

/// The place in the arena that an action is carried out on: 0 is the player, a hostile
/// stands one behind its seat.
pub open spec fn selection_of(target: ActionTarget, seat: Option<usize>) -> Result<
    usize,
    FailTell,
> {
    if !aimed(target) {
        Ok(0)
    } else {
        match seat {
            Some(i) => Ok(i),
            None => Err(FailTell::NoTarget),
        }
    }
}

/// Where an action is carried out, given the arena place of its target while that is
/// seated and alive.
pub fn select_target(target: ActionTarget, place: Option<usize>) -> (r: Result<usize, FailTell>)
    requires
        target != ActionTarget::Nothing,
    ensures
        r == selection_of(target, place),
{
    match target {
        ActionTarget::ActorSelf | ActionTarget::Friendly | ActionTarget::Nothing => Ok(0),
        ActionTarget::Hostile | ActionTarget::Any => match place {
            Some(i) => Ok(i),
            None => Err(FailTell::NoTarget),
        },
    }
}

/// What carrying out an action came to.
#[derive(Clone, Copy, Debug, PartialEq, Eq, Structural)]
pub enum Outcome {
    Done,
    OutOfRange,
    NoTarget,
    InsufficientMana,
}

/// What follows from an outcome.
#[derive(Clone, Copy, Debug, PartialEq, Eq, Structural)]
pub enum Settled {
    /// The action counts; it cools down where it has a cooldown.
    Counts { cools: bool },
    Failed(FailTell),
}

pub open spec fn settled_of(outcome: Outcome, has_cooldown: bool) -> Settled {
    match outcome {
        Outcome::Done => Settled::Counts { cools: has_cooldown },
        Outcome::OutOfRange => Settled::Failed(FailTell::OutOfRange),
        Outcome::NoTarget => Settled::Failed(FailTell::NoTarget),
        Outcome::InsufficientMana => Settled::Failed(FailTell::NotEnoughMana),
    }
}

pub fn finish_action(outcome: Outcome, has_cooldown: bool) -> (r: Settled)
    ensures
        r == settled_of(outcome, has_cooldown),
{
    match outcome {
        Outcome::Done => Settled::Counts { cools: has_cooldown },
        Outcome::OutOfRange => Settled::Failed(FailTell::OutOfRange),
        Outcome::NoTarget => Settled::Failed(FailTell::NoTarget),
        Outcome::InsufficientMana => Settled::Failed(FailTell::NotEnoughMana),
    }
}

/// A seated hostile: its index and whether it is alive.
#[derive(Clone, Copy, Debug, PartialEq, Eq, Structural)]
pub struct Seat {
    pub idx: i32,
    pub alive: bool,
}

/// The first seat from `from` on that holds a living hostile with an index.
pub open spec fn living_seat(seats: Seq<Seat>, idx: i32, from: int) -> Option<int>
    decreases seats.len() - from,
{
    if from < 0 || from >= seats.len() {
        None
    } else if seats[from].idx == idx && seats[from].alive {
        Some(from)
    } else {
        living_seat(seats, idx, from + 1)
    }
}

/// The arena place of a living hostile: one behind its seat, the player being first.
pub fn hostile_actor_index(seats: &[Seat], idx: i32) -> (r: Option<usize>)
    requires
        seats@.len() < usize::MAX,
    ensures
        match living_seat(seats@, idx, 0) {
            Some(i) => r == Some((i + 1) as usize) && 0 <= i < seats@.len(),
            None => r is None,
        },
{
    let mut i: usize = 0;
    while i < seats.len()
        invariant
            i <= seats@.len() < usize::MAX,
            living_seat(seats@, idx, 0) == living_seat(seats@, idx, i as int),
        decreases seats@.len() - i,
    {
        if seats[i].idx == idx && seats[i].alive {
            return Some(i + 1);
        }
        i += 1;
    }
    None
}

/// A press that is neither ignored nor failed is aimed at a living lock, or needs none.
pub proof fn law_started_actions_have_their_target(target: ActionTarget, f: PressFacts)
    requires
        press_of(target, f) is Cast || press_of(target, f) is Finish,
    ensures
        !f.dead && f.can_act && !f.casting && !f.cooling && f.mana_suffices,
        aimed(target) ==> f.lock is Some && f.lock_alive,
        press_of(target, f) is Cast == f.takes_time,
{
}

/// The place of a double in the total order of doubles, in which the negative zero
/// stands before the positive one.
pub open spec fn total_place(x: Real) -> int {
    if x.bits >= SIGN {
        -(x.bits - SIGN) - 1
    } else {
        x.bits as int
    }
}

fn total_rank(x: Real) -> (r: i64)
    ensures
        r == total_place(x),
{
    if x.bits >= SIGN {
        -((x.bits - SIGN) as i64) - 1
    } else {
        x.bits as i64
    }
}

/// The last of the first `n` assignments with the farthest range.
pub open spec fn farthest(effects: Seq<ActionEffect>, n: nat) -> Real
    recommends
        0 < n <= effects.len(),
    decreases n,
{
    if n <= 1 {
        effects[0].range_m
    } else {
        let best = farthest(effects, (n - 1) as nat);
        if total_place(effects[n - 1].range_m) >= total_place(best) {
            effects[n - 1].range_m
        } else {
            best
        }
    }
}

/// The range of an action a hostile may use now: it is aimed at others, has cooled
/// down and is affordable.
pub open spec fn usable_of(action: Action, cooling: bool, affordable: bool) -> Option<Real> {
    if !aimed(action.target) || cooling || !affordable {
        None
    } else {
        Some(farthest(action.effects@, action.effects@.len()))
    }
}

pub fn usable_range(action: &Action, cooling: bool, affordable: bool) -> (r: Option<Real>)
    requires
        action.effects@.len() > 0,
    ensures
        r == usable_of(*action, cooling, affordable),
{
    let at_others: bool = match action.target {
        ActionTarget::Hostile | ActionTarget::Any => true,
        ActionTarget::ActorSelf | ActionTarget::Friendly | ActionTarget::Nothing => false,
    };
    if !at_others || cooling || !affordable {
        return None;
    }
    let mut best: Real = action.effects[0].range_m;
    let mut i: usize = 1;
    while i < action.effects.len()
        invariant
            1 <= i <= action.effects@.len(),
            best == farthest(action.effects@, i as nat),
        decreases action.effects@.len() - i,
    {
        let range: Real = action.effects[i].range_m;
        if total_rank(range) >= total_rank(best) {
            best = range;
        }
        i += 1;
    }
    Some(best)
}

/// The first usable action from `from` on that reaches a distance.
pub open spec fn reaching(ranges: Seq<Option<Real>>, distance: int, from: int) -> Option<int>
    decreases ranges.len() - from,
{
    if from < 0 || from >= ranges.len() {
        None
    } else if ranges[from] is Some && distance <= ranges[from]->0.place() {
        Some(from)
    } else {
        reaching(ranges, distance, from + 1)
    }
}

/// The first usable action of a roster that reaches a distance. Distance and ranges
/// are finite.
pub fn selected_usable_action(ranges: &[Option<Real>], distance: Real) -> (r: Option<usize>)
    ensures
        match r {
            Some(i) => reaching(ranges@, distance.place(), 0) == Some(i as int),
            None => reaching(ranges@, distance.place(), 0) is None,
        },
{
    let far: i64 = distance.rank();
    let mut i: usize = 0;
    while i < ranges.len()
        invariant
            i <= ranges@.len(),
            far == distance.place(),
            reaching(ranges@, distance.place(), 0) == reaching(
                ranges@,
                distance.place(),
                i as int,
            ),
        decreases ranges@.len() - i,
    {
        match ranges[i] {
            Some(range) => {
                if far <= range.rank() {
                    return Some(i);
                }
            },
            None => {},
        }
        i += 1;
    }
    None
}

/// The last of the first `n` usable actions with the farthest range.
pub open spec fn longest(ranges: Seq<Option<Real>>, n: nat) -> Option<int>
    decreases n,
{
    if n == 0 {
        None
    } else {
        let best = longest(ranges, (n - 1) as nat);
        match ranges[n - 1] {
            None => best,
            Some(range) => match best {
                None => Some(n - 1),
                Some(b) => if total_place(range) >= total_place(ranges[b]->0) {
                    Some(n - 1)
                } else {
                    Some(b)
                },
            },
        }
    }
}

/// The usable action a hostile closes in for: the one that reaches farthest.
pub fn pursuit_action(ranges: &[Option<Real>]) -> (r: Option<usize>)
    ensures
        match r {
            Some(i) => longest(ranges@, ranges@.len()) == Some(i as int) && i < ranges@.len()
                && ranges@[i as int] is Some,
            None => longest(ranges@, ranges@.len()) is None,
        },
{
    let mut best: Option<usize> = None;
    let mut i: usize = 0;
    while i < ranges.len()
        invariant
            i <= ranges@.len(),
            match best {
                Some(b) => longest(ranges@, i as nat) == Some(b as int) && b < i
                    && ranges@[b as int] is Some,
                None => longest(ranges@, i as nat) is None,
            },
        decreases ranges@.len() - i,
    {
        match ranges[i] {
            Some(range) => {
                match best {
                    None => {
                        best = Some(i);
                    },
                    Some(b) => {
                        match ranges[b] {
                            Some(far) => {
                                if total_rank(range) >= total_rank(far) {
                                    best = Some(i);
                                }
                            },
                            None => {},
                        }
                    },
                }
            },
            None => {},
        }
        i += 1;
    }
    best
}

/// What is known of a hostile on its turn.
#[derive(Clone, Copy, Debug, PartialEq, Eq, Structural)]
pub struct TurnFacts {
    pub alive: bool,
    pub state: HostileState,
    /// It has a cast under way; whether that has run out.
    pub cast: Option<bool>,
    pub can_act: bool,
    /// The action that reaches its target.
    pub choice: Option<usize>,
    /// The chosen action takes time to cast.
    pub takes_time: bool,
}

/// What a hostile does with its turn.
#[derive(Clone, Copy, Debug, PartialEq, Eq, Structural)]
pub enum Turn {
    Wait,
    /// Its cast is done: it is carried out.
    Complete,
    StartCast(usize),
    /// The action is carried out at once.
    Strike(usize),
}

pub open spec fn turn_of(f: TurnFacts) -> Turn {
    if !f.alive || f.state != HostileState::Attacking {
        Turn::Wait
    } else {
        match f.cast {
            Some(done) => if done {
                Turn::Complete
            } else {
                Turn::Wait
            },
            None => if !f.can_act {
                Turn::Wait
            } else {
                match f.choice {
                    None => Turn::Wait,
                    Some(i) => if f.takes_time {
                        Turn::StartCast(i)
                    } else {
                        Turn::Strike(i)
                    },
                }
            },
        }
    }
}

pub fn hostile_turn(f: TurnFacts) -> (r: Turn)
    ensures
        r == turn_of(f),
{
    if !f.alive || f.state != HostileState::Attacking {
        return Turn::Wait;
    }
    match f.cast {
        Some(done) => if done {
            Turn::Complete
        } else {
            Turn::Wait
        },
        None => if !f.can_act {
            Turn::Wait
        } else {
            match f.choice {
                None => Turn::Wait,
                Some(i) => if f.takes_time {
                    Turn::StartCast(i)
                } else {
                    Turn::Strike(i)
                },
            }
        },
    }
}

} // verus!
