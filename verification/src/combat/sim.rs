//! Whole fights, and the bands their outcome must fall into.

use crate::combat::fight::{first_from, live_mask, tick, ticked};
use crate::combat::fighters::{Mob, Player};
use crate::combat::math::{Discipline, MELEE_SWING_S, START_ARROWS, START_POTIONS};
use crate::combat::fight_laws::lemma_first;
use crate::combat::number::{plus, sum_of, times, times_of, ONE};
use crate::combat::sheets::{
    mob_kind, mob_named, player_fits, player_stats, sheet_for, sheet_of, specialist, unknown_mob,
    unknown_mob_text, wolf_fits, MobKind,
    PlayerStats,
};
use vstd::prelude::*;

verus! {

/// A fight is called off after this many ticks: 180 seconds.
pub const HARD_CAP_TICKS: i32 = 1800;

/// The distances a fighter starts from: one and a half metres, 18 for a hunter and
/// 16 for a caster who keep away.
pub const CLOSE_M: i128 = 1_729_382_256_910_270_464;

pub const BOW_HOLD_M: i128 = 20_752_587_082_923_245_568;

pub const SPELL_HOLD_M: i128 = 18_446_744_073_709_551_616;

/// The room between mobs that start side by side.
pub const MOB_ROOM_M: i128 = 461_168_601_842_738_816;

#[derive(Clone, Copy, Debug, PartialEq, Eq, Structural)]
pub enum Winner {
    Player,
    Mobs,
    Timeout,
}

/// The range a fighter starts at and holds.
pub open spec fn range_for(disc: Discipline, kite: bool) -> i128 {
    if !kite {
        CLOSE_M
    } else {
        match disc {
            Discipline::Martial => CLOSE_M,
            Discipline::Hunt => BOW_HOLD_M,
            Discipline::Arcane => SPELL_HOLD_M,
        }
    }
}

pub fn desired_range_for(disc: Discipline, kite: bool) -> (r: (i128, i128))
    ensures
        r == (range_for(disc, kite), range_for(disc, kite)),
{
    if !kite || disc == Discipline::Martial {
        return (CLOSE_M, CLOSE_M);
    }
    match disc {
        Discipline::Martial => (CLOSE_M, CLOSE_M),
        Discipline::Hunt => (BOW_HOLD_M, BOW_HOLD_M),
        Discipline::Arcane => (SPELL_HOLD_M, SPELL_HOLD_M),
    }
}

/// A fight under way.
pub struct Fight {
    pub player: Player,
    pub mobs: Vec<Mob>,
    pub hold_d: i128,
    /// Ticks fought so far.
    pub t: i32,
}

impl Fight {
    /// Fights on for a tenth of a second.
    pub fn tick(&mut self)
        requires
            old(self).t < i32::MAX,
        ensures
            (final(self).player, final(self).mobs@) == ticked(
                old(self).player,
                old(self).mobs@,
                old(self).hold_d,
            ),
            final(self).hold_d == old(self).hold_d,
            final(self).t == old(self).t + 1,
    {
        tick(&mut self.player, &mut self.mobs, self.hold_d);
        self.t = self.t + 1;
    }
}

/// How a fight ends that goes on for at most `left` ticks: the fighters, the winner
/// and the ticks it took.
pub open spec fn fought(p: Player, mobs: Seq<Mob>, hold: i128, left: nat) -> (
    Player,
    Seq<Mob>,
    Winner,
    int,
)
    decreases left,
{
    if left == 0 {
        (p, mobs, Winner::Timeout, 0)
    } else {
        let out = ticked(p, mobs, hold);
        if !out.0.alive {
            (out.0, out.1, Winner::Mobs, 1)
        } else if first_from(live_mask(out.1), 0) is None {
            (out.0, out.1, Winner::Player, 1)
        } else {
            let rest = fought(out.0, out.1, hold, (left - 1) as nat);
            (rest.0, rest.1, rest.2, rest.3 + 1)
        }
    }
}

fn anyone_left(mobs: &Vec<Mob>) -> (r: bool)
    ensures
        r == (first_from(live_mask(mobs@), 0) is Some),
{
    let mut i: usize = 0;
    while i < mobs.len()
        invariant
            i <= mobs@.len(),
            first_from(live_mask(mobs@), 0) == first_from(live_mask(mobs@), i as int),
        decreases mobs@.len() - i,
    {
        if mobs[i].alive {
            return true;
        }
        i += 1;
    }
    false
}

/// The mobs of a fight: `count` of them, side by side from the starting range on.
pub open spec fn lineup(kind: MobKind, level: i32, start: i128, count: int) -> Seq<Mob> {
    Seq::new(
        if count > 0 {
            count as nat
        } else {
            0
        },
        |i: int|
            Mob::fresh(
                sheet_of(kind, level),
                sum_of(start, times_of(MOB_ROOM_M, i)),
                i as i32,
            ),
    )
}

fn line_up(kind: MobKind, level: i32, start: i128, count: i32) -> (mobs: Vec<Mob>)
    requires
        kind == MobKind::Wolf ==> wolf_fits(level as int),
    ensures
        mobs@ == lineup(kind, level, start, count as int),
{
    let mut mobs: Vec<Mob> = Vec::new();
    let mut i: i32 = 0;
    while i < count
        invariant
            kind == MobKind::Wolf ==> wolf_fits(level as int),
            0 <= i,
            i <= count || i == 0,
            mobs@.len() == i,
            forall|j: int|
                0 <= j < i ==> #[trigger] mobs@[j] == Mob::fresh(
                    sheet_of(kind, level),
                    sum_of(start, times_of(MOB_ROOM_M, j)),
                    j as i32,
                ),
        decreases count - i,
    {
        let x: i128 = plus(start, times(MOB_ROOM_M, i));
        mobs.push(Mob::from_sheet(sheet_for(kind, level), x, i));
        i += 1;
    }
    assert(mobs@ =~= lineup(kind, level, start, count as int));
    mobs
}

/// What a fight was set up with.
#[derive(Clone, Copy, Debug, PartialEq, Eq, Structural)]
pub struct FightSetup {
    pub level: i32,
    pub discipline: Discipline,
    pub mob: MobKind,
    pub count: i32,
    pub mob_level: i32,
    pub potions: i32,
    pub arrows: i32,
    pub kite: bool,
}

/// How a fight ended.
#[derive(Clone, Copy, Debug, PartialEq, Eq, Structural)]
pub struct FightReport {
    pub setup: FightSetup,
    pub winner: Winner,
    /// The ticks the fight took.
    pub ticks: i32,
    /// The player as it left the fight.
    pub player: Player,
}

/// The player and the mobs at the start of a fight.
pub open spec fn opening(s: FightSetup) -> (Player, Seq<Mob>) {
    (
        Player {
            auto_cd: MELEE_SWING_S,
            ..Player::fresh(specialist(s.level, s.discipline), s.potions, s.arrows)
        },
        lineup(s.mob, s.mob_level, range_for(s.discipline, s.kite), s.count as int),
    )
}

/// How the fight of a setup ends.
pub open spec fn outcome(s: FightSetup) -> FightReport {
    let start = opening(s);
    let end = fought(start.0, start.1, range_for(s.discipline, s.kite), HARD_CAP_TICKS as nat);
    FightReport { setup: s, winner: end.2, ticks: end.3 as i32, player: end.0 }
}

/// Fights a fight to its end.
pub fn run_fight(s: FightSetup) -> (r: FightReport)
    requires
        player_fits(s.level as int),
        s.mob == MobKind::Wolf ==> wolf_fits(s.mob_level as int),
    ensures
        r == outcome(s),
        0 <= r.ticks <= HARD_CAP_TICKS,
{
    let stats: PlayerStats = player_stats(s.level, s.discipline);
    let ranges: (i128, i128) = desired_range_for(s.discipline, s.kite);
    let hold: i128 = ranges.1;
    let fresh: Player = Player::new(stats, s.potions, s.arrows);
    let mut p: Player = Player { auto_cd: MELEE_SWING_S, ..fresh };
    let mut mobs: Vec<Mob> = line_up(s.mob, s.mob_level, ranges.0, s.count);
    let ghost p0 = p;
    let ghost mobs0 = mobs@;
    let mut ticks: i32 = 0;
    while ticks < HARD_CAP_TICKS
        invariant
            0 <= ticks <= HARD_CAP_TICKS,
            ({
                let all = fought(p0, mobs0, hold, HARD_CAP_TICKS as nat);
                let rest = fought(p, mobs@, hold, (HARD_CAP_TICKS - ticks) as nat);
                all == (rest.0, rest.1, rest.2, rest.3 + ticks)
            }),
            hold == range_for(s.discipline, s.kite),
            (p0, mobs0) == opening(s),
        decreases HARD_CAP_TICKS - ticks,
    {
        tick(&mut p, &mut mobs, hold);
        ticks += 1;
        if !p.alive {
            return FightReport { setup: s, winner: Winner::Mobs, ticks, player: p };
        }
        if !anyone_left(&mobs) {
            return FightReport { setup: s, winner: Winner::Player, ticks, player: p };
        }
    }
    FightReport { setup: s, winner: Winner::Timeout, ticks, player: p }
}

/// Fights a named mob; an error where no mob has that name. What is not given is the
/// starting kit, the player's own level and keeping away for all but Martial.
pub fn simulate_fight(
    level: i32,
    discipline: Discipline,
    mob_id: &str,
    count: i32,
    potions: Option<i32>,
    arrows: Option<i32>,
    mob_level: Option<i32>,
    kite: Option<bool>,
) -> (r: Result<FightReport, String>)
    requires
        player_fits(level as int),
        mob_named(mob_id@) == Some(MobKind::Wolf) ==> wolf_fits(
            match mob_level {
                Some(l) => l as int,
                None => level as int,
            },
        ),
    ensures
        match mob_named(mob_id@) {
            None => r matches Err(text) && text@ == unknown_mob(mob_id@),
            Some(mob) => r == Ok::<FightReport, String>(
                outcome(
                    FightSetup {
                        level,
                        discipline,
                        mob,
                        count,
                        mob_level: match mob_level {
                            Some(l) => l,
                            None => if mob == MobKind::Wolf {
                                level
                            } else {
                                1
                            },
                        },
                        potions: match potions {
                            Some(n) => n,
                            None => START_POTIONS,
                        },
                        arrows: match arrows {
                            Some(n) => n,
                            None => START_ARROWS,
                        },
                        kite: match kite {
                            Some(k) => k,
                            None => discipline != Discipline::Martial,
                        },
                    },
                ),
            ),
        },
{
    match mob_kind(mob_id) {
        None => Err(unknown_mob_text(mob_id)),
        Some(mob) => Ok(
            run_fight(
                FightSetup {
                    level,
                    discipline,
                    mob,
                    count,
                    mob_level: match mob_level {
                        Some(l) => l,
                        None => if mob == MobKind::Wolf {
                            level
                        } else {
                            1
                        },
                    },
                    potions: match potions {
                        Some(n) => n,
                        None => START_POTIONS,
                    },
                    arrows: match arrows {
                        Some(n) => n,
                        None => START_ARROWS,
                    },
                    kite: match kite {
                        Some(k) => k,
                        None => discipline != Discipline::Martial,
                    },
                },
            ),
        ),
    }
}

/// A quantity rounded to the nearest whole number, halves up.
pub open spec fn nearest_whole(a: i128) -> int {
    (a + ONE / 2) / (ONE as int)
}

impl FightReport {
    /// The health left, in whole points.
    pub open spec fn hp_left(self) -> int {
        if self.player.hp <= 0 {
            0
        } else if nearest_whole(self.player.hp) > i32::MAX {
            i32::MAX as int
        } else {
            nearest_whole(self.player.hp)
        }
    }

    pub fn hp_remaining(&self) -> (r: i32)
        ensures
            r == self.hp_left(),
    {
        if self.player.hp <= 0 {
            return 0;
        }
        let whole: i128 = self.player.hp / ONE;
        let rest: i128 = self.player.hp % ONE;
        let near: i128 = if rest >= ONE / 2 {
            whole + 1
        } else {
            whole
        };
        proof {
            let hp = self.player.hp as int;
            assert(near == (hp + 576_460_752_303_423_488) / 1_152_921_504_606_846_976)
                by (nonlinear_arith)
                requires
                    hp > 0,
                    near == if hp % 1_152_921_504_606_846_976 >= 576_460_752_303_423_488 {
                        hp / 1_152_921_504_606_846_976 + 1
                    } else {
                        hp / 1_152_921_504_606_846_976
                    },
            ;
        }
        if near > i32::MAX as i128 {
            i32::MAX
        } else {
            near as i32
        }
    }

    /// One blow took as much as full health.
    pub open spec fn one_shot(self) -> bool {
        self.player.max_hit_taken >= self.player.max_hp
    }

    /// A fighter at range took no damage while it neither sprinted nor held a mob
    /// off: it could have walked away.
    pub open spec fn walked_off(self) -> bool {
        &&& self.setup.discipline != Discipline::Martial
        &&& self.player.damage_taken == 0
        &&& !self.player.sprinted
        &&& !self.player.used_pin_or_bind
    }

    pub fn oneshot(&self) -> (r: bool)
        ensures
            r == self.one_shot(),
    {
        self.player.max_hit_taken >= self.player.max_hp
    }

    pub fn kite_walk_fail(&self) -> (r: bool)
        ensures
            r == self.walked_off(),
    {
        self.setup.discipline != Discipline::Martial && self.player.damage_taken == 0
            && !self.player.sprinted && !self.player.used_pin_or_bind
    }
}

/// What a fight is measured by.
#[derive(Clone, Copy, Debug, PartialEq, Eq, Structural)]
pub enum Band {
    EvenDuel,
    TwoPullNoPotion,
    TwoPullPotion,
    PaleHall,
    Heart,
    MustWin,
}

/// The verdict on a fight.
#[derive(Clone, Copy, Debug, PartialEq, Eq, Structural)]
pub enum Verdict {
    Even,
    MustWinDuel,
    DuelTooShortOrLong,
    DuelTooCostly,
    OneShot,
    WalkedOff,
    RiskyLoss,
    RiskyWin,
    TooSafe,
    WonWithPotion,
    Lost,
    MustWin,
    RoomTooShortOrLong,
    NoHealthLeft,
    PaleHall,
    HeartTooShortOrLong,
    HeartHealthOff,
    Heart,
    Won,
    LostOrOneShot,
}

impl Verdict {
    pub open spec fn passes(self) -> bool {
        match self {
            Verdict::Even => true,
            Verdict::RiskyLoss => true,
            Verdict::RiskyWin => true,
            Verdict::WonWithPotion => true,
            Verdict::PaleHall => true,
            Verdict::Heart => true,
            Verdict::Won => true,
            _ => false,
        }
    }

    pub fn is_pass(&self) -> (r: bool)
        ensures
            r == self.passes(),
    {
        match self {
            Verdict::Even => true,
            Verdict::RiskyLoss => true,
            Verdict::RiskyWin => true,
            Verdict::WonWithPotion => true,
            Verdict::PaleHall => true,
            Verdict::Heart => true,
            Verdict::Won => true,
            _ => false,
        }
    }
}

/// An even duel: won in 8 to 14 seconds with two fifths of the health left, no
/// one-shot, nothing to be walked away from.
pub open spec fn even_duel(r: FightReport) -> Verdict {
    if r.winner != Winner::Player {
        Verdict::MustWinDuel
    } else if !(80 <= r.ticks <= 140) {
        Verdict::DuelTooShortOrLong
    } else if 5 * r.hp_left() < 2 * r.player.max_hp {
        Verdict::DuelTooCostly
    } else if r.one_shot() {
        Verdict::OneShot
    } else if r.walked_off() {
        Verdict::WalkedOff
    } else {
        Verdict::Even
    }
}

/// Two mobs without a potion: lost, or won with less than a fifth of the health.
pub open spec fn two_pull(r: FightReport) -> Verdict {
    if r.winner == Winner::Mobs {
        Verdict::RiskyLoss
    } else if r.winner == Winner::Player && 5 * r.hp_left() < r.player.max_hp {
        Verdict::RiskyWin
    } else {
        Verdict::TooSafe
    }
}

/// The Pale Hall: won in 20 to 50 seconds.
pub open spec fn pale_hall(r: FightReport) -> Verdict {
    if r.winner != Winner::Player {
        Verdict::MustWin
    } else if !(200 <= r.ticks <= 500) {
        Verdict::RoomTooShortOrLong
    } else if r.hp_left() <= 0 {
        Verdict::NoHealthLeft
    } else if r.one_shot() {
        Verdict::OneShot
    } else if r.walked_off() {
        Verdict::WalkedOff
    } else {
        Verdict::PaleHall
    }
}

/// The heart: won in 25 to 45 seconds with a fifth to a half of the health left.
pub open spec fn heart(r: FightReport) -> Verdict {
    if r.winner != Winner::Player {
        Verdict::MustWin
    } else if !(250 <= r.ticks <= 450) {
        Verdict::HeartTooShortOrLong
    } else if 5 * r.hp_left() < r.player.max_hp || 2 * r.hp_left() > r.player.max_hp {
        Verdict::HeartHealthOff
    } else if r.one_shot() {
        Verdict::OneShot
    } else {
        Verdict::Heart
    }
}

/// The verdict on a fight by a band.
pub open spec fn judged(band: Band, r: FightReport) -> Verdict {
    match band {
        Band::EvenDuel => even_duel(r),
        Band::TwoPullNoPotion => two_pull(r),
        Band::TwoPullPotion => if r.winner == Winner::Player {
            Verdict::WonWithPotion
        } else {
            Verdict::Lost
        },
        Band::PaleHall => pale_hall(r),
        Band::Heart => heart(r),
        Band::MustWin => if r.winner == Winner::Player && !r.one_shot() {
            Verdict::Won
        } else {
            Verdict::LostOrOneShot
        },
    }
}

fn even_1v1_pass(r: &FightReport) -> (v: Verdict)
    ensures
        v == even_duel(*r),
{
    if r.winner != Winner::Player {
        return Verdict::MustWinDuel;
    }
    if r.ticks < 80 || r.ticks > 140 {
        return Verdict::DuelTooShortOrLong;
    }
    if 5 * (r.hp_remaining() as i64) < 2 * (r.player.max_hp as i64) {
        return Verdict::DuelTooCostly;
    }
    if r.oneshot() {
        return Verdict::OneShot;
    }
    if r.kite_walk_fail() {
        return Verdict::WalkedOff;
    }
    Verdict::Even
}

fn two_pull_nopot_pass(r: &FightReport) -> (v: Verdict)
    ensures
        v == two_pull(*r),
{
    if r.winner == Winner::Mobs {
        return Verdict::RiskyLoss;
    }
    if r.winner == Winner::Player && 5 * (r.hp_remaining() as i64) < r.player.max_hp as i64 {
        return Verdict::RiskyWin;
    }
    Verdict::TooSafe
}

fn pale_hall_pass(r: &FightReport) -> (v: Verdict)
    ensures
        v == pale_hall(*r),
{
    if r.winner != Winner::Player {
        return Verdict::MustWin;
    }
    if r.ticks < 200 || r.ticks > 500 {
        return Verdict::RoomTooShortOrLong;
    }
    if r.hp_remaining() <= 0 {
        return Verdict::NoHealthLeft;
    }
    if r.oneshot() {
        return Verdict::OneShot;
    }
    if r.kite_walk_fail() {
        return Verdict::WalkedOff;
    }
    Verdict::PaleHall
}

fn heart_pass(r: &FightReport) -> (v: Verdict)
    ensures
        v == heart(*r),
{
    if r.winner != Winner::Player {
        return Verdict::MustWin;
    }
    if r.ticks < 250 || r.ticks > 450 {
        return Verdict::HeartTooShortOrLong;
    }
    let hp: i64 = r.hp_remaining() as i64;
    let max: i64 = r.player.max_hp as i64;
    if 5 * hp < max || 2 * hp > max {
        return Verdict::HeartHealthOff;
    }
    if r.oneshot() {
        return Verdict::OneShot;
    }
    Verdict::Heart
}

/// The verdict on a fight by a band.
pub fn judge(band: Band, r: &FightReport) -> (v: Verdict)
    ensures
        v == judged(band, *r),
{
    match band {
        Band::EvenDuel => even_1v1_pass(r),
        Band::TwoPullNoPotion => two_pull_nopot_pass(r),
        Band::TwoPullPotion => if r.winner == Winner::Player {
            Verdict::WonWithPotion
        } else {
            Verdict::Lost
        },
        Band::PaleHall => pale_hall_pass(r),
        Band::Heart => heart_pass(r),
        Band::MustWin => if r.winner == Winner::Player && !r.oneshot() {
            Verdict::Won
        } else {
            Verdict::LostOrOneShot
        },
    }
}

/// A fight passes an even duel exactly when the player wins it in eight to fourteen seconds
/// with two fifths of the health left, was never struck for all of it at once, and could not
/// have walked away.
pub proof fn law_even_duels(r: FightReport)
    ensures
        judged(Band::EvenDuel, r).passes() <==> r.winner == Winner::Player && 80 <= r.ticks <= 140
            && 5 * r.hp_left() >= 2 * r.player.max_hp && r.player.max_hit_taken < r.player.max_hp
            && (r.setup.discipline == Discipline::Martial || r.player.damage_taken != 0
            || r.player.sprinted || r.player.used_pin_or_bind),
{
}

/// Two mobs at once are to be risky without a potion: the player loses to them, or wins with
/// less than a fifth of the health. With a potion the player is to win.
pub proof fn law_two_pulls(r: FightReport)
    ensures
        judged(Band::TwoPullNoPotion, r).passes() <==> r.winner == Winner::Mobs || (r.winner
            == Winner::Player && 5 * r.hp_left() < r.player.max_hp),
        judged(Band::TwoPullPotion, r).passes() <==> r.winner == Winner::Player,
        judged(Band::MustWin, r).passes() <==> r.winner == Winner::Player && r.player.max_hit_taken
            < r.player.max_hp,
{
}

/// The Pale Hall is to be won in twenty to fifty seconds with some health left, the heart in
/// twenty-five to forty-five with a fifth to a half of it.
pub proof fn law_halls_and_hearts(r: FightReport)
    ensures
        judged(Band::PaleHall, r).passes() <==> r.winner == Winner::Player && 200 <= r.ticks <= 500
            && r.hp_left() > 0 && r.player.max_hit_taken < r.player.max_hp && (r.setup.discipline
            == Discipline::Martial || r.player.damage_taken != 0 || r.player.sprinted
            || r.player.used_pin_or_bind),
        judged(Band::Heart, r).passes() <==> r.winner == Winner::Player && 250 <= r.ticks <= 450
            && r.player.max_hp <= 5 * r.hp_left() && 2 * r.hp_left() <= r.player.max_hp
            && r.player.max_hit_taken < r.player.max_hp,
{
}

/// The health a fight leaves is told to the nearest point, halves up, and a player without
/// health has none.
pub proof fn law_health_left_is_near(r: FightReport)
    requires
        r.player.hp <= i32::MAX * ONE,
    ensures
        r.player.hp <= 0 ==> r.hp_left() == 0,
        r.player.hp > 0 ==> 2 * r.hp_left() * ONE - ONE <= 2 * r.player.hp < 2 * r.hp_left() * ONE
            + ONE,
{
    if r.player.hp > 0 {
        vstd::arithmetic::div_mod::lemma_fundamental_div_mod(
            r.player.hp + ONE / 2,
            ONE as int,
        );
    }
}

/// Whom a fight is won by: the mobs where the player ends it dead, the player where every mob
/// does, and nobody where time runs out. It takes no longer than it may.
pub proof fn law_fights_have_their_winner(p: Player, mobs: Seq<Mob>, hold: i128, left: nat)
    ensures
        ({
            let end = fought(p, mobs, hold, left);
            &&& 0 <= end.3 <= left
            &&& end.2 == Winner::Mobs ==> !end.0.alive
            &&& end.2 == Winner::Player ==> end.0.alive && forall|i: int|
                0 <= i < end.1.len() ==> !(#[trigger] end.1[i]).alive
            &&& end.2 == Winner::Timeout ==> end.3 == left
            &&& end.2 == Winner::Timeout && left > 0 ==> end.0.alive
        }),
    decreases left,
{
    if left > 0 {
        let out = ticked(p, mobs, hold);
        let end = fought(p, mobs, hold, left);
        if out.0.alive && first_from(live_mask(out.1), 0) is Some {
            law_fights_have_their_winner(out.0, out.1, hold, (left - 1) as nat);
        } else if out.0.alive {
            lemma_first(live_mask(out.1), 0);
            assert forall|i: int| 0 <= i < end.1.len() implies !(#[trigger] end.1[i]).alive by {
                assert(!live_mask(out.1)[i]);
            }
        }
    }
}

/// A fighter in melee stands close, an archer and a caster who keep off stand farther away;
/// the mobs line up behind each other from there on, each with its own number.
pub proof fn law_fights_open_at_their_range(s: FightSetup, i: int)
    requires
        0 <= i < s.count,
    ensures
        opening(s).1.len() == s.count,
        opening(s).1[i].idx == i,
        opening(s).1[i].alive,
        opening(s).1[0].idx == 0,
        s.kite && s.discipline == Discipline::Hunt ==> range_for(s.discipline, s.kite) > range_for(
            s.discipline,
            false,
        ),
        s.kite && s.discipline == Discipline::Arcane ==> range_for(s.discipline, s.kite)
            > range_for(s.discipline, false),
        s.discipline == Discipline::Martial ==> range_for(s.discipline, s.kite) == range_for(
            s.discipline,
            false,
        ),
        opening(s).0.arrows == s.arrows,
        opening(s).0.potions == s.potions,
        opening(s).0.alive,
{
}

} // verus!
