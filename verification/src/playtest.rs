//! The scripted run of the player's actions: what is set up and tried, in which order, and
//! what has to come of it.

use crate::combat::math::TICK;
use crate::combat::number::{diff_of, minus, plus, sum_of, times, times_of, units, units_of, ONE};
use crate::measure::Real;
use crate::text::str_eq;
use vstd::prelude::*;

verus! {

/// What an action has to bring about.
#[derive(Clone, Copy, Debug, PartialEq, Eq, Structural)]
pub enum Expect {
    WoundsTarget,
    HealsPlayer,
    Root,
    Hold,
    Snare,
    Charm,
}

/// One step of the script.
#[derive(Clone, Copy, Debug)]
pub struct Trial {
    pub action: &'static str,
    pub expect: Expect,
    pub detail: &'static str,
}

/// How many actions are tried.
pub const TRIAL_COUNT: usize = 7;

/// The name of the only script.
pub open spec fn script_name() -> Seq<char> {
    "m5_actions"@
}

pub open spec fn trial_of(i: int) -> Trial {
    if i == 0 {
        Trial {
            action: "slash",
            expect: Expect::WoundsTarget,
            detail: "slash dealt canonical melee damage",
        }
    } else if i == 1 {
        Trial {
            action: "arrow",
            expect: Expect::WoundsTarget,
            detail: "arrow dealt canonical ranged damage",
        }
    } else if i == 2 {
        Trial {
            action: "restore",
            expect: Expect::HealsPlayer,
            detail: "restore restored player HP",
        }
    } else if i == 3 {
        Trial { action: "entangle", expect: Expect::Root, detail: "root disables movement" }
    } else if i == 4 {
        Trial {
            action: "stasis",
            expect: Expect::Hold,
            detail: "hold disables movement and actions",
        }
    } else if i == 5 {
        Trial { action: "hobble", expect: Expect::Snare, detail: "snare reduces movement" }
    } else {
        Trial {
            action: "befriend",
            expect: Expect::Charm,
            detail: "charm changes effective faction",
        }
    }
}

/// Step `i` of the script.
pub fn trial(i: usize) -> (r: Trial)
    requires
        i < TRIAL_COUNT,
    ensures
        r == trial_of(i as int),
{
    match i {
        0 => Trial {
            action: "slash",
            expect: Expect::WoundsTarget,
            detail: "slash dealt canonical melee damage",
        },
        1 => Trial {
            action: "arrow",
            expect: Expect::WoundsTarget,
            detail: "arrow dealt canonical ranged damage",
        },
        2 => Trial {
            action: "restore",
            expect: Expect::HealsPlayer,
            detail: "restore restored player HP",
        },
        3 => Trial { action: "entangle", expect: Expect::Root, detail: "root disables movement" },
        4 => Trial {
            action: "stasis",
            expect: Expect::Hold,
            detail: "hold disables movement and actions",
        },
        5 => Trial { action: "hobble", expect: Expect::Snare, detail: "snare reduces movement" },
        _ => Trial {
            action: "befriend",
            expect: Expect::Charm,
            detail: "charm changes effective faction",
        },
    }
}

/// What the script does next. Throughout, the player stands as [`stance`] says.
#[derive(Clone, Copy, Debug, PartialEq, Eq, Structural)]
pub enum Cue {
    /// Seat every mob of the roster, each where [`roster_seat`] puts it.
    SeatRoster,
    /// Take all hostiles away.
    ClearHostiles,
    /// Seat a wolf where [`wolf_seat`] puts it.
    SeatWolf { metres: i32 },
    /// Let so many fixed steps pass.
    Steps { count: u32 },
    Lock { idx: i32 },
    /// Let fixed steps pass as long as the cooldown of a trial's action runs.
    AwaitCooldown { trial: usize },
    /// Set the player's health so far below its maximum.
    Wound { points: i32 },
    Try { trial: usize },
}

/// How many cues the script has.
pub const CUE_COUNT: usize = 18;

/// Cue `i` of the script.
pub open spec fn cue_of(i: int) -> Cue {
    if i == 0 {
        Cue::SeatRoster
    } else if i == 1 {
        Cue::ClearHostiles
    } else if i == 2 {
        Cue::SeatWolf { metres: 1 }
    } else if i == 3 {
        Cue::Steps { count: 1 }
    } else if i == 4 {
        Cue::Lock { idx: 0 }
    } else if i == 5 {
        Cue::Try { trial: 0 }
    } else if i == 6 {
        Cue::AwaitCooldown { trial: 0 }
    } else if i == 7 {
        Cue::Try { trial: 1 }
    } else if i == 8 {
        Cue::ClearHostiles
    } else if i == 9 {
        Cue::Wound { points: 20 }
    } else if i == 10 {
        Cue::Try { trial: 2 }
    } else if i == 11 {
        Cue::SeatWolf { metres: 10 }
    } else if i == 12 {
        Cue::Lock { idx: 0 }
    } else if i == 13 {
        Cue::Try { trial: 3 }
    } else if i == 14 {
        Cue::Try { trial: 4 }
    } else if i == 15 {
        Cue::Steps { count: 30 }
    } else if i == 16 {
        Cue::Try { trial: 5 }
    } else {
        Cue::Try { trial: 6 }
    }
}

/// Cue `i` of the script.
pub fn cue(i: usize) -> (r: Cue)
    requires
        i < CUE_COUNT,
    ensures
        r == cue_of(i as int),
{
    match i {
        0 => Cue::SeatRoster,
        1 | 8 => Cue::ClearHostiles,
        2 => Cue::SeatWolf { metres: 1 },
        3 => Cue::Steps { count: 1 },
        4 | 12 => Cue::Lock { idx: 0 },
        5 => Cue::Try { trial: 0 },
        6 => Cue::AwaitCooldown { trial: 0 },
        7 => Cue::Try { trial: 1 },
        9 => Cue::Wound { points: 20 },
        10 => Cue::Try { trial: 2 },
        11 => Cue::SeatWolf { metres: 10 },
        13 => Cue::Try { trial: 3 },
        14 => Cue::Try { trial: 4 },
        15 => Cue::Steps { count: 30 },
        16 => Cue::Try { trial: 5 },
        _ => Cue::Try { trial: 6 },
    }
}

/// Where the player stands and looks.
#[derive(Clone, Copy, Debug, PartialEq, Eq, Structural)]
pub struct Stance {
    pub x: i128,
    pub z: i128,
    pub facing_x: i128,
    pub facing_z: i128,
}

/// The player stands at the origin and looks along x.
pub fn stance() -> (r: Stance)
    ensures
        r == (Stance { x: 0, z: 0, facing_x: ONE, facing_z: 0 }),
{
    Stance { x: 0, z: 0, facing_x: ONE, facing_z: 0 }
}

/// Where a mob is seated; its home is there too.
#[derive(Clone, Copy, Debug, PartialEq, Eq, Structural)]
pub struct Seat {
    pub idx: i32,
    pub x: i128,
    pub z: i128,
}

/// How far apart the mobs of the roster stand: a tenth of a metre.
pub const SEAT_GAP_M: i128 = 115_292_150_460_684_704;

/// Where the mob at `index` of the roster is seated: a metre ahead of the player, in a row.
pub fn roster_seat(index: i32) -> (r: Seat)
    requires
        index >= 0,
    ensures
        r == (Seat { idx: index, x: ONE, z: times_of(SEAT_GAP_M, index as int) }),
{
    Seat { idx: index, x: ONE, z: times(SEAT_GAP_M, index) }
}

/// Where a wolf is seated, so many metres ahead of the player.
pub fn wolf_seat(metres: i32) -> (r: Seat)
    ensures
        r == (Seat { idx: 0, x: units_of(metres as int), z: 0 }),
{
    Seat { idx: 0, x: units(metres), z: 0 }
}

/// The health a wound leaves.
pub fn wounded_hp(hp_max: i128, points: i32) -> (r: i128)
    ensures
        r == diff_of(hp_max, units_of(points as int)),
{
    minus(hp_max, units(points))
}

/// What is wrong with the seated roster.
#[derive(Clone, Copy, Debug, PartialEq, Eq, Structural)]
pub enum RosterFault {
    Empty,
    NotSeated,
}

/// Judges the seating of a roster by how many mobs it has and how many are seated.
pub fn judge_roster(mobs: usize, seated: usize) -> (r: Option<RosterFault>)
    ensures
        r == if mobs == 0 {
            Some(RosterFault::Empty)
        } else if seated != mobs {
            Some(RosterFault::NotSeated)
        } else {
            None::<RosterFault>
        },
{
    if mobs == 0 {
        Some(RosterFault::Empty)
    } else if seated != mobs {
        Some(RosterFault::NotSeated)
    } else {
        None
    }
}

/// What comes next while a cast may run.
#[derive(Clone, Copy, Debug, PartialEq, Eq, Structural)]
pub enum CastWait {
    Over,
    TooLong,
    /// One more fixed step, after which so many seconds have passed.
    Step { elapsed_s: i128 },
}

/// How long a cast may take: five seconds.
pub const CAST_LIMIT_S: i128 = 5_764_607_523_034_234_880;

/// What comes next of a cast after `elapsed_s` seconds.
pub open spec fn cast_wait(casting: bool, elapsed_s: i128) -> CastWait {
    if !casting {
        CastWait::Over
    } else if elapsed_s >= CAST_LIMIT_S {
        CastWait::TooLong
    } else {
        CastWait::Step { elapsed_s: sum_of(elapsed_s, TICK) }
    }
}

/// Waits for a cast: it is stepped until it is over or the limit is reached.
pub fn await_cast(casting: bool, elapsed_s: i128) -> (r: CastWait)
    ensures
        r == cast_wait(casting, elapsed_s),
{
    if !casting {
        CastWait::Over
    } else if elapsed_s >= CAST_LIMIT_S {
        CastWait::TooLong
    } else {
        CastWait::Step { elapsed_s: plus(elapsed_s, TICK) }
    }
}

/// Whether the wait for a cooldown goes on: it runs as long as it is above zero.
pub fn cooldown_runs(cooldown_s: Real) -> (r: bool)
    ensures
        r == (cooldown_s.number() && cooldown_s.place() > 0),
{
    cooldown_s.is_number() && cooldown_s.rank() > 0
}

/// The script tries every action once, in the order of the trials.
pub proof fn law_script_tries_all(t: usize)
    requires
        t < TRIAL_COUNT,
    ensures
        exists|i: int| 0 <= i < CUE_COUNT && #[trigger] cue_of(i) == (Cue::Try { trial: t }),
        forall|i: int, j: int|
            0 <= i < j < CUE_COUNT && (#[trigger] cue_of(i)) is Try && (#[trigger] cue_of(j)) is Try
                ==> cue_of(i)->Try_trial < cue_of(j)->Try_trial,
{
    let at: int = if t == 0 {
        5
    } else if t == 1 {
        7
    } else if t == 2 {
        10
    } else if t == 3 {
        13
    } else if t == 4 {
        14
    } else if t == 5 {
        16
    } else {
        17
    };
    assert(cue_of(at) == (Cue::Try { trial: t }));
}

/// What was seen of one step.
#[derive(Clone, Copy, Debug, PartialEq, Eq, Structural)]
pub struct Seen {
    /// The press was taken.
    pub accepted: bool,
    /// The cast was over within five seconds.
    pub cast_over: bool,
    pub cooldown_s: Real,
    pub authored_cooldown_s: Real,
    pub target_hp_before: Real,
    pub target_hp: Real,
    pub player_hp_before: Real,
    pub player_hp: Real,
    /// The expected status lies on the target.
    pub has_status: bool,
    pub can_move: bool,
    pub can_act: bool,
    pub speed_mps: Real,
    pub effective_speed_mps: Real,
    /// The target counts to the player's faction.
    pub with_player: bool,
}

/// Why a step failed.
#[derive(Clone, Copy, Debug, PartialEq, Eq, Structural)]
pub enum TrialFault {
    Rejected,
    CastTooLong,
    CooldownNotStarted,
    NotWounded,
    NotHealed,
    StatusMissing,
    StillMoves,
    CannotAct,
    StillActs,
    NotSlowed,
    NotCharmed,
}

/// Whether one number is below another; what is not a number is below nothing.
pub open spec fn below(a: Real, b: Real) -> bool {
    a.number() && b.number() && a.place() < b.place()
}

/// Whether a cooldown runs, for no longer than authored.
pub open spec fn cooldown_started(s: Seen) -> bool {
    &&& s.cooldown_s.number()
    &&& s.authored_cooldown_s.number()
    &&& 0 < s.cooldown_s.place() <= s.authored_cooldown_s.place()
}

/// What is missing of the expected outcome.
pub open spec fn outcome_fault(expect: Expect, s: Seen) -> Option<TrialFault> {
    match expect {
        Expect::WoundsTarget => if below(s.target_hp, s.target_hp_before) {
            None
        } else {
            Some(TrialFault::NotWounded)
        },
        Expect::HealsPlayer => if below(s.player_hp_before, s.player_hp) {
            None
        } else {
            Some(TrialFault::NotHealed)
        },
        _ => if !s.has_status {
            Some(TrialFault::StatusMissing)
        } else {
            match expect {
                Expect::Root => if s.can_move {
                    Some(TrialFault::StillMoves)
                } else if !s.can_act {
                    Some(TrialFault::CannotAct)
                } else {
                    None
                },
                Expect::Hold => if s.can_move {
                    Some(TrialFault::StillMoves)
                } else if s.can_act {
                    Some(TrialFault::StillActs)
                } else {
                    None
                },
                Expect::Snare => if below(s.effective_speed_mps, s.speed_mps) {
                    None
                } else {
                    Some(TrialFault::NotSlowed)
                },
                _ => if s.with_player {
                    None
                } else {
                    Some(TrialFault::NotCharmed)
                },
            }
        },
    }
}

/// Why a step failed: the press, the cast, the cooldown, then the outcome.
pub open spec fn trial_fault(expect: Expect, s: Seen) -> Option<TrialFault> {
    if !s.accepted {
        Some(TrialFault::Rejected)
    } else if !s.cast_over {
        Some(TrialFault::CastTooLong)
    } else if !cooldown_started(s) {
        Some(TrialFault::CooldownNotStarted)
    } else {
        outcome_fault(expect, s)
    }
}

fn is_below(a: Real, b: Real) -> (r: bool)
    ensures
        r == below(a, b),
{
    a.is_number() && b.is_number() && a.rank() < b.rank()
}

fn judge_outcome(expect: Expect, s: Seen) -> (r: Option<TrialFault>)
    ensures
        r == outcome_fault(expect, s),
{
    match expect {
        Expect::WoundsTarget => if is_below(s.target_hp, s.target_hp_before) {
            None
        } else {
            Some(TrialFault::NotWounded)
        },
        Expect::HealsPlayer => if is_below(s.player_hp_before, s.player_hp) {
            None
        } else {
            Some(TrialFault::NotHealed)
        },
        Expect::Root => if !s.has_status {
            Some(TrialFault::StatusMissing)
        } else if s.can_move {
            Some(TrialFault::StillMoves)
        } else if !s.can_act {
            Some(TrialFault::CannotAct)
        } else {
            None
        },
        Expect::Hold => if !s.has_status {
            Some(TrialFault::StatusMissing)
        } else if s.can_move {
            Some(TrialFault::StillMoves)
        } else if s.can_act {
            Some(TrialFault::StillActs)
        } else {
            None
        },
        Expect::Snare => if !s.has_status {
            Some(TrialFault::StatusMissing)
        } else if is_below(s.effective_speed_mps, s.speed_mps) {
            None
        } else {
            Some(TrialFault::NotSlowed)
        },
        Expect::Charm => if !s.has_status {
            Some(TrialFault::StatusMissing)
        } else if s.with_player {
            None
        } else {
            Some(TrialFault::NotCharmed)
        },
    }
}

/// Judges a step by what was seen of it.
pub fn judge_trial(expect: Expect, s: Seen) -> (r: Option<TrialFault>)
    ensures
        r == trial_fault(expect, s),
{
    if !s.accepted {
        return Some(TrialFault::Rejected);
    }
    if !s.cast_over {
        return Some(TrialFault::CastTooLong);
    }
    let runs: bool = s.cooldown_s.is_number() && s.authored_cooldown_s.is_number()
        && s.cooldown_s.rank() > 0 && s.cooldown_s.rank() <= s.authored_cooldown_s.rank();
    if !runs {
        return Some(TrialFault::CooldownNotStarted);
    }
    judge_outcome(expect, s)
}

/// The place of the word after the first `flag` that has one.
pub open spec fn value_after(words: Seq<&str>, flag: Seq<char>, from: int) -> Option<int>
    decreases words.len() - from,
{
    if from < 0 || from + 1 >= words.len() {
        None
    } else if words[from]@ == flag {
        Some(from + 1)
    } else {
        value_after(words, flag, from + 1)
    }
}

fn find_value(words: &[&str], flag: &str) -> (r: Option<usize>)
    ensures
        match value_after(words@, flag@, 0) {
            Some(i) => r is Some && r->0 == i,
            None => r is None,
        },
        r is Some ==> r->0 < words@.len(),
{
    let n: usize = words.len();
    if n == 0 {
        return None;
    }
    let mut i: usize = 0;
    while i < n - 1
        invariant
            n == words@.len(),
            n > 0,
            i <= n - 1,
            value_after(words@, flag@, 0) == value_after(words@, flag@, i as int),
        decreases n - i,
    {
        if str_eq(words[i], flag) {
            return Some(i + 1);
        }
        i += 1;
    }
    None
}

/// What a playtester's line asks for.
#[derive(Clone, Copy, Debug, PartialEq, Eq, Structural)]
pub enum Ask {
    /// No script is named.
    Usage,
    /// The named script is unknown; its name stands there.
    Unknown(usize),
    /// The script, and where the report's path stands if one is given.
    Script { report: Option<usize> },
}

/// What a line asks for.
pub open spec fn asked(words: Seq<&str>) -> Ask {
    match value_after(words, "--hooks"@, 0) {
        None => Ask::Usage,
        Some(h) => if words[h]@ == script_name() {
            Ask::Script {
                report: match value_after(words, "--report"@, 0) {
                    Some(i) => Some(i as usize),
                    None => None,
                },
            }
        } else {
            Ask::Unknown(h as usize)
        },
    }
}

/// Reads a playtester's line.
pub fn read_line(words: &[&str]) -> (r: Ask)
    ensures
        r == asked(words@),
        r matches Ask::Script { report: Some(i) } ==> i < words@.len(),
{
    match find_value(words, "--hooks") {
        None => Ask::Usage,
        Some(h) => if str_eq(words[h], "m5_actions") {
            Ask::Script { report: find_value(words, "--report") }
        } else {
            Ask::Unknown(h)
        },
    }
}

/// Where a report is written if its line names no place.
pub open spec fn default_report() -> Seq<char> {
    "playtester-report.json"@
}

/// Where the report of a script is written.
pub fn report_path<'a>(words: &[&'a str], report: Option<usize>) -> (r: &'a str)
    requires
        report is Some ==> report->0 < words@.len(),
    ensures
        r@ == match report {
            Some(i) => words@[i as int]@,
            None => default_report(),
        },
{
    match report {
        Some(i) => words[i],
        None => "playtester-report.json",
    }
}

/// A step passes only where the press was taken and its cooldown runs; one that roots, holds,
/// slows or charms passes only where that status lies on the target.
pub proof fn law_passed_trials_took_hold(expect: Expect, s: Seen)
    requires
        trial_fault(expect, s) is None,
    ensures
        s.accepted,
        cooldown_started(s),
        expect != Expect::WoundsTarget && expect != Expect::HealsPlayer ==> s.has_status,
        expect == Expect::Hold ==> !s.can_act && !s.can_move,
{
}

/// A step whose press was taken, whose cast was over and whose cooldown runs passes exactly
/// where what it was tried for came about: the target lost health, the player gained some, or
/// the status lies on the target and does its work. The rooted may act and not move, the held
/// do neither, the slowed are slower, the charmed stand with the player.
pub proof fn law_trials_pass_by_their_outcome(expect: Expect, s: Seen)
    requires
        s.accepted,
        s.cast_over,
        s.cooldown_s.number(),
        s.authored_cooldown_s.number(),
        0 < s.cooldown_s.place() <= s.authored_cooldown_s.place(),
    ensures
        trial_fault(expect, s) is None <==> match expect {
            Expect::WoundsTarget => s.target_hp.number() && s.target_hp_before.number()
                && s.target_hp.place() < s.target_hp_before.place(),
            Expect::HealsPlayer => s.player_hp.number() && s.player_hp_before.number()
                && s.player_hp.place() > s.player_hp_before.place(),
            Expect::Root => s.has_status && !s.can_move && s.can_act,
            Expect::Hold => s.has_status && !s.can_move && !s.can_act,
            Expect::Snare => s.has_status && s.speed_mps.number() && s.effective_speed_mps.number()
                && s.effective_speed_mps.place() < s.speed_mps.place(),
            Expect::Charm => s.has_status && s.with_player,
        },
{
}

/// A wait for a cast is over once nothing is cast, and is given up after five seconds; until
/// then another step is taken.
pub proof fn law_casts_are_awaited(casting: bool, elapsed_s: i128)
    ensures
        !casting <==> cast_wait(casting, elapsed_s) is Over,
        casting && elapsed_s >= 5 * ONE ==> cast_wait(casting, elapsed_s) is TooLong,
        casting && elapsed_s < 5 * ONE ==> cast_wait(casting, elapsed_s) is Step,
{
}

} // verus!
