//! The rest of the live world: its clock and the player's death, saved resources, what
//! the log tells of a resolved action, and the progression shown to the player.

use crate::combat::log::{last_of, CombatLog, CAP};
use crate::combat::math::{
    MANA_REGEN_COMBAT_PER_S, MANA_REGEN_OOC_PER_S, SHAKEN_S, SLAIN_HOLD_S, TICK,
};
use crate::combat::number::{diff_of, greater, law_rounding_is_close, minus, most, ONE};
use crate::combat::player_actions::FailBoard;
use crate::gamedata::kinds::EffectOperation;
use crate::measure::Real;
use crate::text::{decimal, owned, push_decimal};
use vstd::prelude::*;

verus! {

/// A blow the player took.
#[derive(Clone, Debug)]
pub struct IncomingHit {
    pub dealt: i32,
    pub by: String,
    pub killed: bool,
}

/// What one step of the world brought about.
#[derive(Clone, Debug)]
pub struct CombatStep<R> {
    pub resolutions: Vec<R>,
}

/// The clock of the world and what runs on it.
#[derive(Clone, Copy, Debug, PartialEq, Eq, Structural)]
pub struct WorldClock {
    pub tick: u64,
    pub fails: FailBoard,
    pub dead: bool,
    pub slain_hold_s: i128,
    /// How long the player is still shaken from its last death.
    pub shaken_s: Option<i128>,
}

impl WorldClock {
    /// The clock a tenth of a second later. Once the player is dead only the failures
    /// and the hold of the slain run on.
    pub open spec fn later(self) -> WorldClock {
        let ticked = WorldClock { tick: (self.tick + 1) as u64, fails: self.fails.later(), ..self };
        if self.dead {
            WorldClock {
                slain_hold_s: greater(diff_of(self.slain_hold_s, TICK) as i128, 0),
                ..ticked
            }
        } else {
            WorldClock {
                shaken_s: match self.shaken_s {
                    Some(left) => {
                        let now = greater(diff_of(left, TICK) as i128, 0);
                        if now <= 0 {
                            None
                        } else {
                            Some(now)
                        }
                    },
                    None => None,
                },
                ..ticked
            }
        }
    }

    pub fn new() -> (r: Self)
        ensures
            r.tick == 0,
            !r.dead,
            r.slain_hold_s == 0,
            r.shaken_s is None,
            r.fails == (FailBoard { tell: None, left_s: 0 }),
    {
        WorldClock {
            tick: 0,
            fails: FailBoard::new(),
            dead: false,
            slain_hold_s: 0,
            shaken_s: None,
        }
    }

    /// Starts a step; says whether the world goes on, which it does while the player
    /// lives.
    pub fn begin_step(&mut self) -> (goes_on: bool)
        requires
            old(self).tick < u64::MAX,
        ensures
            *final(self) == old(self).later(),
            goes_on == !old(self).dead,
    {
        let mut fails: FailBoard = self.fails;
        fails.tick();
        let tick: u64 = self.tick + 1;
        let was: WorldClock = *self;
        if was.dead {
            let slain_hold_s: i128 = most(minus(was.slain_hold_s, TICK), 0);
            *self = WorldClock { tick, fails, slain_hold_s, ..was };
            return false;
        }
        let shaken_s: Option<i128> = match was.shaken_s {
            Some(left) => {
                let now: i128 = most(minus(left, TICK), 0);
                if now <= 0 {
                    None
                } else {
                    Some(now)
                }
            },
            None => None,
        };
        *self = WorldClock { tick, fails, shaken_s, ..was };
        true
    }

    /// The player dies, unless it is dead already: the hold of the slain begins.
    pub fn slay(&mut self) -> (died: bool)
        ensures
            died == !old(self).dead,
            *final(self) == if old(self).dead {
                *old(self)
            } else {
                WorldClock { dead: true, slain_hold_s: SLAIN_HOLD_S, ..*old(self) }
            },
            final(self).dead,
            died ==> final(self).slain_hold_s == 2 * ONE,
            final(self).tick == old(self).tick,
    {
        if self.dead {
            return false;
        }
        let was: WorldClock = *self;
        *self = WorldClock { dead: true, slain_hold_s: SLAIN_HOLD_S, ..was };
        true
    }

    /// After the hold the player rises, shaken.
    pub fn finish_death_respawn(&mut self)
        ensures
            *final(self) == (WorldClock {
                dead: false,
                slain_hold_s: 0,
                shaken_s: Some(SHAKEN_S),
                ..*old(self)
            }),
            !final(self).dead,
            final(self).shaken_s == Some((300 * ONE) as i128),
    {
        let was: WorldClock = *self;
        *self = WorldClock { dead: false, slain_hold_s: 0, shaken_s: Some(SHAKEN_S), ..was };
    }

    /// Starts over when a fixture is armed.
    pub fn reset_for_fixture_start(&mut self)
        ensures
            *final(self) == (WorldClock {
                tick: old(self).tick,
                fails: FailBoard { tell: None, left_s: 0 },
                dead: false,
                slain_hold_s: 0,
                shaken_s: None,
            }),
    {
        *self = WorldClock {
            tick: self.tick,
            fails: FailBoard::new(),
            dead: false,
            slain_hold_s: 0,
            shaken_s: None,
        };
    }
}

/// The mana a second restores, in a fight and out of one.
pub fn mana_regen(fighting: bool) -> (r: i128)
    ensures
        r == if fighting {
            MANA_REGEN_COMBAT_PER_S
        } else {
            MANA_REGEN_OOC_PER_S
        },
        fighting ==> 5 * r - 2 * ONE == 128,
        !fighting ==> r == 2 * ONE,
{
    if fighting {
        MANA_REGEN_COMBAT_PER_S
    } else {
        MANA_REGEN_OOC_PER_S
    }
}

/// A dead player's world only lets its timers run: nobody dies twice, and the death is
/// not undone by time.
pub proof fn law_dead_world_only_waits(c: WorldClock)
    requires
        c.dead,
        c.tick < u64::MAX,
    ensures
        c.later().dead,
        c.later().shaken_s == c.shaken_s,
        c.later().tick == c.tick + 1,
        c.later().slain_hold_s == greater(diff_of(c.slain_hold_s, TICK) as i128, 0),
{
}

/// A living player recovers from being shaken, a tenth of a second for each step; what is
/// left of the hold of the slain stays as it is.
pub proof fn law_the_shaken_recover(c: WorldClock)
    requires
        !c.dead,
        c.tick < u64::MAX,
        c.shaken_s is Some,
        0 < c.shaken_s->0 <= 300 * ONE,
    ensures
        !c.later().dead,
        c.later().tick == c.tick + 1,
        c.later().slain_hold_s == c.slain_hold_s,
        10 * c.shaken_s->0 <= ONE ==> c.later().shaken_s is None,
        9 * c.shaken_s->0 > ONE ==> c.later().shaken_s is Some,
        c.later().shaken_s is Some ==> -1_000_000 <= 10 * c.later().shaken_s->0 - (10
            * c.shaken_s->0 - ONE) <= 1_000_000,
{
    law_rounding_is_close(c.shaken_s->0 - TICK);
}

/// The slain wait their hold out: it runs down by a tenth of a second for each step, to
/// nothing.
pub proof fn law_the_slain_wait_their_hold_out(c: WorldClock)
    requires
        c.dead,
        0 <= c.slain_hold_s <= 2 * ONE,
    ensures
        10 * c.slain_hold_s <= ONE ==> c.later().slain_hold_s == 0,
        9 * c.slain_hold_s > ONE ==> -10_000 <= 10 * c.later().slain_hold_s - (10 * c.slain_hold_s
            - ONE) <= 10_000,
{
    law_rounding_is_close(c.slain_hold_s - TICK);
}

/// A saved resource that is let in is a number from nothing to its maximum, and a living
/// player's health is above nothing; every such number is let in.
pub proof fn law_saved_resources_fit(value: Real, maximum: Real, reject_zero: bool)
    ensures
        resource_fault(value, maximum, reject_zero) is None <==> value.finite() && 0
            <= value.place() <= maximum.place() && (reject_zero ==> value.place() > 0),
        resource_fault(value, maximum, reject_zero) == Some(ResourceFault::NotFinite)
            <==> !value.finite(),
{
}

/// The lines of a resolved action tell only what was done, one line for each hit at most but
/// for the one that tells of the player's death, which is told once at most.
pub proof fn law_told_lines_are_few(
    caster: Option<&str>,
    action: Seq<char>,
    dead: bool,
    hits: Seq<LoggedHit>,
    n: nat,
)
    requires
        n <= hits.len(),
    ensures
        told(caster, action, dead, hits, n).len() <= n + 1,
        !dead || !struck_player(caster, hits, n as int) ==> told(
            caster,
            action,
            dead,
            hits,
            n,
        ).len() <= n,
    decreases n,
{
    if n > 0 {
        law_told_lines_are_few(caster, action, dead, hits, (n - 1) as nat);
        assert(at_player(caster, hits[n - 1]) ==> struck_player(caster, hits, n as int));
        if struck_player(caster, hits, n - 1) {
            let k = choose|k: int| 0 <= k < n - 1 && at_player(caster, #[trigger] hits[k]);
            assert(at_player(caster, hits[k]));
        }
    }
}

/// Why a saved resource is refused.
#[derive(Clone, Copy, Debug, PartialEq, Eq, Structural)]
pub enum ResourceFault {
    NotFinite,
    DeadPlayer,
    OutOfRange,
}

/// What a saved resource is refused for: it must be finite, not below zero, not above
/// its maximum, and where a player would be dead without it, above zero.
pub open spec fn resource_fault(value: Real, maximum: Real, reject_zero: bool) -> Option<
    ResourceFault,
> {
    if !value.finite() {
        Some(ResourceFault::NotFinite)
    } else if reject_zero && value.place() <= 0 {
        Some(ResourceFault::DeadPlayer)
    } else if value.place() < 0 || value.place() > maximum.place() {
        Some(ResourceFault::OutOfRange)
    } else {
        None
    }
}

/// Checks a saved resource against a maximum that is a number.
pub fn validate_resource(value: Real, maximum: Real, reject_zero: bool) -> (r: Option<
    ResourceFault,
>)
    requires
        maximum.finite(),
    ensures
        r == resource_fault(value, maximum, reject_zero),
{
    if !value.is_finite() {
        return Some(ResourceFault::NotFinite);
    }
    if reject_zero && value.rank() <= 0 {
        return Some(ResourceFault::DeadPlayer);
    }
    if value.rank() < 0 || value.rank() > maximum.rank() {
        return Some(ResourceFault::OutOfRange);
    }
    None
}

/// What is wrong with a saved player: its health first, then its mana.
pub fn validate_player_save(
    hp: Real,
    hp_max: Real,
    mana: Real,
    mana_max: Real,
) -> (r: Result<(), (&'static str, ResourceFault)>)
    requires
        hp_max.finite(),
        mana_max.finite(),
    ensures
        match resource_fault(hp, hp_max, true) {
            Some(f) => r == Err::<(), (&'static str, ResourceFault)>(("HP", f)),
            None => match resource_fault(mana, mana_max, false) {
                Some(f) => r == Err::<(), (&'static str, ResourceFault)>(("mana", f)),
                None => r == Ok::<(), (&'static str, ResourceFault)>(()),
            },
        },
{
    match validate_resource(hp, hp_max, true) {
        Some(f) => {
            return Err(("HP", f));
        },
        None => {},
    }
    match validate_resource(mana, mana_max, false) {
        Some(f) => Err(("mana", f)),
        None => Ok(()),
    }
}

/// One target of a resolved effect.
#[derive(Clone, Copy, Debug)]
pub struct LoggedHit<'a> {
    pub operation: EffectOperation,
    /// The name of the hostile it was done to; the player has none.
    pub target: Option<&'a str>,
    /// Something was done: more than nothing was applied.
    pub took: bool,
    /// What was applied, in whole points.
    pub amount: i32,
}

/// The line a hit is told by, if any. `caster` is the name of the hostile that did it.
pub open spec fn hit_line(caster: Option<&str>, action: Seq<char>, hit: LoggedHit) -> Option<
    Seq<char>,
> {
    let n = decimal(hit.amount as int);
    if !hit.took {
        None
    } else {
        match hit.operation {
            EffectOperation::DirectDamage => match (caster, hit.target) {
                (None, Some(t)) => Some("You "@ + action + " "@ + t@ + " for "@ + n),
                (Some(c), Some(t)) => Some(c@ + " hits "@ + t@ + " for "@ + n),
                (Some(c), None) => Some(c@ + " hits you for "@ + n),
                (None, None) => Some("You hit yourself for "@ + n),
            },
            EffectOperation::Heal => match caster {
                None => Some("You "@ + action + " for "@ + n),
                Some(c) => Some(c@ + " heals for "@ + n),
            },
            _ => None,
        }
    }
}

/// Whether a hit is one of a hostile's blows at the player.
pub open spec fn at_player(caster: Option<&str>, hit: LoggedHit) -> bool {
    hit.took && hit.operation == EffectOperation::DirectDamage && caster is Some && hit.target
        is None
}

/// Whether one of the first `n` hits is a blow at the player.
pub open spec fn struck_player(caster: Option<&str>, hits: Seq<LoggedHit>, n: int) -> bool {
    exists|i: int| 0 <= i < n && at_player(caster, #[trigger] hits[i])
}

/// The lines of the first `n` hits; the first blow that leaves the player dead is
/// followed by the news of it.
pub open spec fn told(
    caster: Option<&str>,
    action: Seq<char>,
    dead: bool,
    hits: Seq<LoggedHit>,
    n: nat,
) -> Seq<Seq<char>>
    decreases n,
{
    if n == 0 {
        Seq::empty()
    } else {
        let before = told(caster, action, dead, hits, (n - 1) as nat);
        match hit_line(caster, action, hits[n - 1]) {
            None => before,
            Some(line) => if dead && at_player(caster, hits[n - 1]) && !struck_player(
                caster,
                hits,
                n - 1,
            ) {
                before.push(line).push("You are slain"@)
            } else {
                before.push(line)
            },
        }
    }
}

/// A log after lines were pushed in turn.
pub open spec fn pushed_all(log: Seq<Seq<char>>, lines: Seq<Seq<char>>) -> Seq<Seq<char>>
    decreases lines.len(),
{
    if lines.len() == 0 {
        log
    } else {
        last_of(pushed_all(log, lines.drop_last()).push(lines.last()), CAP as int)
    }
}

fn make_line(caster: Option<&str>, action: &str, hit: &LoggedHit) -> (r: Option<String>)
    ensures
        match r {
            Some(line) => hit_line(caster, action@, *hit) == Some(line@),
            None => hit_line(caster, action@, *hit) is None,
        },
{
    if !hit.took {
        return None;
    }
    match hit.operation {
        EffectOperation::DirectDamage => match caster {
            None => match hit.target {
                Some(t) => {
                    let mut s: String = owned("You ");
                    s.append(action);
                    s.append(" ");
                    s.append(t);
                    s.append(" for ");
                    push_decimal(&mut s, hit.amount as i64);
                    Some(s)
                },
                None => {
                    let mut s: String = owned("You hit yourself for ");
                    push_decimal(&mut s, hit.amount as i64);
                    Some(s)
                },
            },
            Some(c) => match hit.target {
                Some(t) => {
                    let mut s: String = owned(c);
                    s.append(" hits ");
                    s.append(t);
                    s.append(" for ");
                    push_decimal(&mut s, hit.amount as i64);
                    Some(s)
                },
                None => {
                    let mut s: String = owned(c);
                    s.append(" hits you for ");
                    push_decimal(&mut s, hit.amount as i64);
                    Some(s)
                },
            },
        },
        EffectOperation::Heal => match caster {
            None => {
                let mut s: String = owned("You ");
                s.append(action);
                s.append(" for ");
                push_decimal(&mut s, hit.amount as i64);
                Some(s)
            },
            Some(c) => {
                let mut s: String = owned(c);
                s.append(" heals for ");
                push_decimal(&mut s, hit.amount as i64);
                Some(s)
            },
        },
        EffectOperation::Root
        | EffectOperation::Hold
        | EffectOperation::Snare
        | EffectOperation::Charm => None,
    }
}

proof fn lemma_pushed_one(log: Seq<Seq<char>>, lines: Seq<Seq<char>>, line: Seq<char>)
    ensures
        pushed_all(log, lines.push(line)) == last_of(
            pushed_all(log, lines).push(line),
            CAP as int,
        ),
{
    assert(lines.push(line).drop_last() =~= lines);
}

/// Tells a resolved action in the log.
pub fn record_resolution_log(
    log: &mut CombatLog,
    caster: Option<&str>,
    action: &str,
    dead: bool,
    hits: &[LoggedHit],
)
    requires
        old(log).wf(),
    ensures
        final(log).wf(),
        final(log)@ == pushed_all(
            old(log)@,
            told(caster, action@, dead, hits@, hits@.len()),
        ),
{
    let mut slain_logged: bool = false;
    let mut i: usize = 0;
    while i < hits.len()
        invariant
            i <= hits@.len(),
            log.wf(),
            log@ == pushed_all(old(log)@, told(caster, action@, dead, hits@, i as nat)),
            slain_logged == (dead && struck_player(caster, hits@, i as int)),
        decreases hits@.len() - i,
    {
        let ghost lines = told(caster, action@, dead, hits@, i as nat);
        let hit: LoggedHit = hits[i];
        match make_line(caster, action, &hit) {
            Some(line) => {
                proof {
                    lemma_pushed_one(old(log)@, lines, line@);
                }
                let ghost text = line@;
                log.push(line);
                let blow: bool = hit.operation == EffectOperation::DirectDamage && caster.is_some()
                    && hit.target.is_none();
                if blow && dead && !slain_logged {
                    proof {
                        lemma_pushed_one(old(log)@, lines.push(text), "You are slain"@);
                    }
                    log.push(owned("You are slain"));
                    slain_logged = true;
                }
                assert(blow == at_player(caster, hits@[i as int]));
            },
            None => {
                assert(!at_player(caster, hits@[i as int]));
            },
        }
        proof {
            assert(struck_player(caster, hits@, i + 1) == (struck_player(caster, hits@, i as int)
                || at_player(caster, hits@[i as int]))) by {
                if at_player(caster, hits@[i as int]) {
                    assert(struck_player(caster, hits@, i + 1));
                }
                if struck_player(caster, hits@, i as int) {
                    let k = choose|k: int| 0 <= k < i && at_player(caster, #[trigger] hits@[k]);
                    assert(at_player(caster, hits@[k]));
                }
            }
        }
        i += 1;
    }
}

/// A line of the player's progression.
#[derive(Clone, Debug)]
pub struct CombatHudProgression {
    pub label: String,
    pub level: i32,
    pub xp: u64,
    pub xp_total: u64,
}

impl CombatHudProgression {
    /// A line: the experience into the level, and how much is left of it.
    pub fn new(label: &str, level: i32, xp: u64, remaining: u64) -> (r: Self)
        requires
            xp + remaining <= u64::MAX,
        ensures
            r.label@ == label@,
            r.level == level,
            r.xp == xp,
            r.xp_total == xp + remaining,
    {
        CombatHudProgression { label: owned(label), level, xp, xp_total: xp + remaining }
    }

    pub fn label(&self) -> (r: &str)
        ensures
            r@ == self.label@,
    {
        self.label.as_str()
    }

    pub fn level(&self) -> (r: i32)
        ensures
            r == self.level,
    {
        self.level
    }

    pub fn xp(&self) -> (r: u64)
        ensures
            r == self.xp,
    {
        self.xp
    }

    pub fn xp_total(&self) -> (r: u64)
        ensures
            r == self.xp_total,
    {
        self.xp_total
    }
}

/// The line that tells who slew the player.
pub fn slain_line(by: &str) -> (r: String)
    ensures
        r@ == "Slain by "@ + by@,
{
    let mut s: String = owned("Slain by ");
    s.append(by);
    s
}

} // verus!
