//! One tenth of a second of a fight: timers, choices, casts, swings, steps.

use crate::combat::fighters::{
    apply_player_damage, count_up, dealt_to, hit_mob, share_of, start_cast, take_share, tally,
    Ability, CastKind, Cooldowns, Mob, Player, TINY,
};
use crate::combat::math::{
    as_small, mitigated, mitigation, Discipline, AIMED_CD_S, AIMED_DRAW_S, BASH_ANIM_S, BASH_CD_S,
    BASH_STUN_S, BIND_CAST_S, BIND_CD_S, BIND_GRACE_S, BIND_MANA, BIND_RANGE_M, BIND_ROOT_S,
    BOW_DRAW_S, CLEAVE_PCT, CLEAVE_RANGE_M, EMBER_CAST_S, EMBER_CD_S, EMBER_MANA, EMBER_RANGE_M,
    MANA_TICK, MARK_CD_S, MARK_DUR_S, MELEE_REACH_M, MELEE_SWING_S, MEND_CAST_S, MEND_CD_S,
    MEND_MANA, MOTHER_ENRAGED_SWING_S, MOTHER_ENRAGE_DMG, MOTHER_ENRAGE_HP, PIN_CD_S, PIN_DUR_S,
    POISON_TICK, POTION_CD_S, POTION_HEAL, RANGE_SLACK, SCORP_POISON_S, SECOND_WIND_PCT,
    SPRINT_STEP, STRIKE_CD_S, TICK, WALK_STEP, WARD_CD_S, WARD_DUR_S, WARD_GCD_S, WARD_MANA,
};
use crate::combat::math::{bow_damage, ember_damage, melee_damage, mend_heal, ward_absorb};
use crate::combat::number::{
    diff_of, gap, gap_of, greater, least, lesser, minus, most, plus, sum_of, times, times_of, units,
    units_of, whole, whole_of, ONE,
};
use crate::combat::sheets::MobKind;
use vstd::prelude::*;

verus! {

/// The shares of full health that a fighter acts on.
pub const HEALTH_25: i128 = 288_230_376_151_711_744;

pub const HEALTH_30: i128 = 345_876_451_382_054_080;

pub const HEALTH_35: i128 = 403_522_526_612_396_416;

pub const HEALTH_50: i128 = 576_460_752_303_423_488;

pub const HEALTH_60: i128 = 691_752_902_764_108_160;

/// A timer after a tick: a tenth of a second less, down to nothing.
pub open spec fn run_down(t: i128) -> i128 {
    if t > 0 {
        greater(diff_of(t, TICK), 0)
    } else {
        t
    }
}

fn tick_down(t: i128) -> (r: i128)
    ensures
        r == run_down(t),
{
    if t > 0 {
        most(minus(t, TICK), 0)
    } else {
        t
    }
}

/// The cooldowns after a tick.
pub open spec fn cooled(c: Cooldowns) -> Cooldowns {
    Cooldowns {
        strike: run_down(c.strike),
        bash: run_down(c.bash),
        aimed: run_down(c.aimed),
        pin: run_down(c.pin),
        ember: run_down(c.ember),
        mend: run_down(c.mend),
        bind: run_down(c.bind),
        ward: run_down(c.ward),
        potion: run_down(c.potion),
        mark: run_down(c.mark),
    }
}

fn cool(c: &Cooldowns) -> (r: Cooldowns)
    ensures
        r == cooled(*c),
{
    Cooldowns {
        strike: tick_down(c.strike),
        bash: tick_down(c.bash),
        aimed: tick_down(c.aimed),
        pin: tick_down(c.pin),
        ember: tick_down(c.ember),
        mend: tick_down(c.mend),
        bind: tick_down(c.bind),
        ward: tick_down(c.ward),
        potion: tick_down(c.potion),
        mark: tick_down(c.mark),
    }
}

/// The player after its timers ran for a tick; a ward whose time is up is gone.
#[verifier::opaque]
pub open spec fn timers_run(p: Player) -> Player {
    Player {
        cds: cooled(p.cds),
        gcd: run_down(p.gcd),
        ward_t: run_down(p.ward_t),
        ward: if p.ward_t > 0 && run_down(p.ward_t) <= 0 {
            0
        } else {
            p.ward
        },
        mark_t: run_down(p.mark_t),
        ..p
    }
}

/// The player after a tick of poison: what has gathered to whole points hurts.
#[verifier::opaque]
pub open spec fn poisoned(p: Player) -> Player {
    if p.poison_t <= 0 {
        p
    } else {
        let acc = sum_of(p.poison_acc, POISON_TICK);
        let t = run_down(p.poison_t);
        if acc >= ONE {
            let points = as_small(whole_of(acc));
            Player { poison_acc: diff_of(acc, units_of(points)), poison_t: t, ..p }.struck(
                points,
                true,
            )
        } else {
            Player { poison_acc: acc, poison_t: t, ..p }
        }
    }
}

/// The player after a tick of mana coming back.
#[verifier::opaque]
pub open spec fn refreshed(p: Player) -> Player {
    let mana = lesser(sum_of(p.mana, MANA_TICK), units_of(p.max_mana as int));
    Player {
        mana,
        min_mana: if mana < p.min_mana {
            mana
        } else {
            p.min_mana
        },
        mana_hit_zero: p.mana_hit_zero || mana <= TINY,
        ..p
    }
}

fn run_timers(p: &mut Player)
    ensures
        *final(p) == refreshed(poisoned(timers_run(*old(p)))),
        final(p).stats == old(p).stats,
{
    proof {
        reveal(timers_run);
        reveal(poisoned);
        reveal(refreshed);
    }
    let before: Player = *p;
    let ward_t: i128 = tick_down(before.ward_t);
    *p = Player {
        cds: cool(&before.cds),
        gcd: tick_down(before.gcd),
        ward_t,
        ward: if before.ward_t > 0 && ward_t <= 0 {
            0
        } else {
            before.ward
        },
        mark_t: tick_down(before.mark_t),
        ..before
    };
    run_poison(p);
    let before: Player = *p;
    let mana: i128 = least(plus(before.mana, MANA_TICK), units(before.max_mana));
    *p = Player {
        mana,
        min_mana: if mana < before.min_mana {
            mana
        } else {
            before.min_mana
        },
        mana_hit_zero: before.mana_hit_zero || mana <= TINY,
        ..before
    };
}

fn run_poison(p: &mut Player)
    ensures
        *final(p) == poisoned(*old(p)),
        final(p).stats == old(p).stats,
{
    proof {
        reveal(poisoned);
    }
    let before: Player = *p;
    if before.poison_t > 0 {
        let acc: i128 = plus(before.poison_acc, POISON_TICK);
        let t: i128 = tick_down(before.poison_t);
        if acc >= ONE {
            let w: i128 = whole(acc);
            let points: i32 = if w > i32::MAX as i128 {
                i32::MAX
            } else {
                w as i32
            };
            *p = Player { poison_acc: minus(acc, units(points)), poison_t: t, ..before };
            let _left: i32 = apply_player_damage(p, points, true);
        } else {
            *p = Player { poison_acc: acc, poison_t: t, ..before };
        }
    }
}

/// A mob after its timers ran for a tick. The Line-Mother at three tenths of her
/// health flies into a rage and swings faster.
#[verifier::opaque]
pub open spec fn mob_ticked(m: Mob) -> Mob {
    if !m.alive {
        m
    } else {
        let rages = !m.enraged && m.max_hp > 0 && m.hp <= times_of(
            MOTHER_ENRAGE_HP,
            m.max_hp as int,
        ) && m.sheet.kind == MobKind::LineMother;
        Mob {
            stun: run_down(m.stun),
            root_grace: run_down(m.root_grace),
            root: run_down(m.root),
            slow: run_down(m.slow),
            enraged: m.enraged || rages,
            swing: if rages {
                MOTHER_ENRAGED_SWING_S
            } else {
                m.swing
            },
            ..m
        }
    }
}

fn tick_mob(m: &Mob) -> (r: Mob)
    ensures
        r == mob_ticked(*m),
{
    proof {
        reveal(mob_ticked);
    }
    if !m.alive {
        return *m;
    }
    let rages: bool = !m.enraged && m.max_hp > 0 && m.hp <= times(MOTHER_ENRAGE_HP, m.max_hp)
        && m.sheet.kind == MobKind::LineMother;
    Mob {
        stun: tick_down(m.stun),
        root_grace: tick_down(m.root_grace),
        root: tick_down(m.root),
        slow: tick_down(m.slow),
        enraged: m.enraged || rages,
        swing: if rages {
            MOTHER_ENRAGED_SWING_S
        } else {
            m.swing
        },
        ..*m
    }
}

/// All mobs after their timers ran for a tick.
pub open spec fn mobs_ticked(mobs: Seq<Mob>) -> Seq<Mob> {
    Seq::new(mobs.len(), |i: int| mob_ticked(mobs[i]))
}

fn tick_mobs(mobs: &mut Vec<Mob>)
    ensures
        final(mobs)@ == mobs_ticked(old(mobs)@),
{
    let ghost start = mobs@;
    let mut i: usize = 0;
    while i < mobs.len()
        invariant
            i <= mobs@.len(),
            mobs@.len() == start.len(),
            forall|j: int|
                0 <= j < start.len() ==> #[trigger] mobs@[j] == if j < i {
                    mob_ticked(start[j])
                } else {
                    start[j]
                },
        decreases mobs@.len() - i,
    {
        let m: Mob = tick_mob(&mobs[i]);
        mobs.set(i, m);
        i += 1;
    }
    assert(mobs@ =~= mobs_ticked(start));
}

/// The first marked position from `i` on.
pub open spec fn first_from(mask: Seq<bool>, i: int) -> Option<int>
    decreases mask.len() - i,
{
    if i >= mask.len() || i < 0 {
        None
    } else if mask[i] {
        Some(i)
    } else {
        first_from(mask, i + 1)
    }
}

fn first_marked(mask: &Vec<bool>) -> (r: Option<usize>)
    ensures
        match r {
            Some(i) => first_from(mask@, 0) == Some(i as int) && i < mask@.len() && mask@[i as int],
            None => first_from(mask@, 0) is None,
        },
{
    let mut i: usize = 0;
    while i < mask.len()
        invariant
            i <= mask@.len(),
            first_from(mask@, 0) == first_from(mask@, i as int),
        decreases mask@.len() - i,
    {
        if mask[i] {
            return Some(i);
        }
        i += 1;
    }
    None
}

/// `a` comes before `b`: less health, or as much and a lower number.
pub open spec fn weaker(a: Mob, b: Mob) -> bool {
    a.hp < b.hp || (a.hp == b.hp && a.idx < b.idx)
}

/// The weakest of the marked mobs below `n`, the first of equals.
pub open spec fn weakest_upto(mobs: Seq<Mob>, mask: Seq<bool>, n: nat) -> Option<int>
    decreases n,
{
    if n == 0 {
        None
    } else {
        let best = weakest_upto(mobs, mask, (n - 1) as nat);
        if mask[n - 1] && (best is None || weaker(mobs[n - 1], mobs[best->0])) {
            Some(n - 1)
        } else {
            best
        }
    }
}

/// The weakest of the marked mobs.
pub open spec fn weakest(mobs: Seq<Mob>, mask: Seq<bool>) -> Option<int> {
    weakest_upto(mobs, mask, mobs.len())
}

fn lowest_hp(mobs: &Vec<Mob>, mask: &Vec<bool>) -> (r: Option<usize>)
    requires
        mask@.len() == mobs@.len(),
    ensures
        match r {
            Some(i) => weakest(mobs@, mask@) == Some(i as int) && i < mobs@.len(),
            None => weakest(mobs@, mask@) is None,
        },
{
    let mut best: Option<usize> = None;
    let mut i: usize = 0;
    while i < mobs.len()
        invariant
            i <= mobs@.len(),
            mask@.len() == mobs@.len(),
            match best {
                Some(b) => weakest_upto(mobs@, mask@, i as nat) == Some(b as int) && b < i,
                None => weakest_upto(mobs@, mask@, i as nat) is None,
            },
        decreases mobs@.len() - i,
    {
        if mask[i] {
            match best {
                None => {
                    best = Some(i);
                },
                Some(b) => {
                    if mobs[i].hp < mobs[b].hp || (mobs[i].hp == mobs[b].hp && mobs[i].idx
                        < mobs[b].idx) {
                        best = Some(i);
                    }
                },
            }
        }
        i += 1;
    }
    best
}

/// The mobs that live.
pub open spec fn live_mask(mobs: Seq<Mob>) -> Seq<bool> {
    Seq::new(mobs.len(), |i: int| mobs[i].alive)
}

/// The living mobs that wind up a slam.
pub open spec fn winding_mask(mobs: Seq<Mob>) -> Seq<bool> {
    Seq::new(mobs.len(), |i: int| mobs[i].alive && mobs[i].tele > 0)
}

/// The living mobs within `range` of `x`.
pub open spec fn near_mask(mobs: Seq<Mob>, x: i128, range: i128) -> Seq<bool> {
    Seq::new(mobs.len(), |i: int| mobs[i].alive && gap_of(mobs[i].x, x) <= range)
}

/// The living mobs within `range` of `x`, without the one numbered `idx` and, where
/// `loose` asks it, without those that are rooted.
pub open spec fn other_mask(
    mobs: Seq<Mob>,
    x: i128,
    range: i128,
    idx: i32,
    loose: bool,
) -> Seq<bool> {
    Seq::new(
        mobs.len(),
        |i: int|
            mobs[i].alive && mobs[i].idx != idx && (!loose || mobs[i].root <= 0) && gap_of(
                mobs[i].x,
                x,
            ) <= range,
    )
}

fn living(mobs: &Vec<Mob>) -> (r: Vec<bool>)
    ensures
        r@ == live_mask(mobs@),
{
    let mut r: Vec<bool> = Vec::new();
    let mut i: usize = 0;
    while i < mobs.len()
        invariant
            i <= mobs@.len(),
            r@.len() == i,
            forall|j: int| 0 <= j < i ==> #[trigger] r@[j] == live_mask(mobs@)[j],
        decreases mobs@.len() - i,
    {
        r.push(mobs[i].alive);
        i += 1;
    }
    assert(r@ =~= live_mask(mobs@));
    r
}

fn winding(mobs: &Vec<Mob>) -> (r: Vec<bool>)
    ensures
        r@ == winding_mask(mobs@),
{
    let mut r: Vec<bool> = Vec::new();
    let mut i: usize = 0;
    while i < mobs.len()
        invariant
            i <= mobs@.len(),
            r@.len() == i,
            forall|j: int| 0 <= j < i ==> #[trigger] r@[j] == winding_mask(mobs@)[j],
        decreases mobs@.len() - i,
    {
        r.push(mobs[i].alive && mobs[i].tele > 0);
        i += 1;
    }
    assert(r@ =~= winding_mask(mobs@));
    r
}

fn near(mobs: &Vec<Mob>, x: i128, range: i128) -> (r: Vec<bool>)
    ensures
        r@ == near_mask(mobs@, x, range),
{
    let mut r: Vec<bool> = Vec::new();
    let mut i: usize = 0;
    while i < mobs.len()
        invariant
            i <= mobs@.len(),
            r@.len() == i,
            forall|j: int| 0 <= j < i ==> #[trigger] r@[j] == near_mask(mobs@, x, range)[j],
        decreases mobs@.len() - i,
    {
        r.push(mobs[i].alive && gap(mobs[i].x, x) <= range);
        i += 1;
    }
    assert(r@ =~= near_mask(mobs@, x, range));
    r
}

fn others(mobs: &Vec<Mob>, x: i128, range: i128, idx: i32, loose: bool) -> (r: Vec<bool>)
    ensures
        r@ == other_mask(mobs@, x, range, idx, loose),
{
    let mut r: Vec<bool> = Vec::new();
    let mut i: usize = 0;
    while i < mobs.len()
        invariant
            i <= mobs@.len(),
            r@.len() == i,
            forall|j: int| 0 <= j < i ==> #[trigger] r@[j] == other_mask(mobs@, x, range, idx, loose)[j],
        decreases mobs@.len() - i,
    {
        r.push(mobs[i].alive && mobs[i].idx != idx && (!loose || mobs[i].root <= 0) && gap(mobs[i].x, x) <= range);
        i += 1;
    }
    assert(r@ =~= other_mask(mobs@, x, range, idx, loose));
    r
}

/// Less than a share of full health is left.
pub open spec fn below(p: Player, share: i128) -> bool {
    p.hp < times_of(share, p.max_hp as int)
}

fn is_below(p: &Player, share: i128) -> (r: bool)
    requires
        0 <= share <= 2 * ONE,
    ensures
        r == below(*p, share),
{
    p.hp < times(share, p.max_hp)
}

/// The player after drinking a potion.
#[verifier::opaque]
pub open spec fn drunk(p: Player) -> Player {
    Player {
        hp: lesser(sum_of(p.hp, units_of(POTION_HEAL as int)), units_of(p.max_hp as int)),
        potions: (p.potions - 1) as i32,
        cds: Cooldowns { potion: POTION_CD_S, ..p.cds },
        ..p
    }.having_used(Ability::Potion)
}

/// The player after the second wind.
#[verifier::opaque]
pub open spec fn winded(p: Player) -> Player {
    Player {
        hp: lesser(
            sum_of(p.hp, times_of(SECOND_WIND_PCT, p.max_hp as int)),
            units_of(p.max_hp as int),
        ),
        second_wind_used: true,
        ..p
    }.having_used(Ability::SecondWind)
}

/// What a Martial fighter starts: a bash against a slam, else the next strike.
#[verifier::opaque]
pub open spec fn martial_choice(p: Player, mobs: Seq<Mob>) -> Player {
    let slam = first_from(winding_mask(mobs), 0);
    let rank = p.stats.ranks.martial;
    if rank >= 3 && p.cds.bash <= 0 && slam is Some {
        let q = p.casting(
            Ability::Bash,
            BASH_ANIM_S,
            0,
            CastKind::Bash,
            Some(mobs[slam->0].idx),
        );
        Player { cds: Cooldowns { bash: BASH_CD_S, ..q.cds }, ..q }
    } else if rank >= 1 && p.cds.strike <= 0 && !p.strike_armed {
        Player {
            strike_armed: true,
            cds: Cooldowns { strike: STRIKE_CD_S, ..p.cds },
            ..p
        }.having_used(Ability::Strike)
    } else {
        p
    }
}

/// The player after setting its mark, where it can.
#[verifier::opaque]
pub open spec fn marking(p: Player) -> Player {
    if p.stats.ranks.hunt >= 10 && p.cds.mark <= 0 {
        Player {
            mark_t: MARK_DUR_S,
            cds: Cooldowns { mark: MARK_CD_S, ..p.cds },
            ..p
        }.having_used(Ability::Mark)
    } else {
        p
    }
}

/// The player after it locked on a mob and started a cast on it.
#[verifier::opaque]
pub open spec fn cast_on(
    p: Player,
    target: i32,
    a: Ability,
    duration: i128,
    mana: int,
    kind: CastKind,
) -> Player {
    Player { lock: Some(target), ..p }.casting(a, duration, mana, kind, Some(target))
}

fn cast_at(p: &mut Player, target: i32, a: Ability, duration: i128, mana: i32, kind: CastKind)
    ensures
        *final(p) == cast_on(*old(p), target, a, duration, mana as int, kind),
        final(p).stats == old(p).stats,
{
    proof {
        reveal(cast_on);
    }
    let before: Player = *p;
    *p = Player { lock: Some(target), ..before };
    let _started: bool = start_cast(p, a, duration, mana, kind, Some(target));
}

/// What a hunter starts: an aimed shot, a pin or a plain shot at the weakest.
#[verifier::opaque]
pub open spec fn hunt_choice(p: Player, mobs: Seq<Mob>) -> Player {
    let low = weakest(mobs, live_mask(mobs));
    if p.arrows <= 0 || low is None {
        p
    } else {
        let m = marking(p);
        let target = mobs[low->0].idx;
        let rank = p.stats.ranks.hunt;
        if rank >= 1 && m.cds.aimed <= 0 {
            let r = cast_on(m, target, Ability::AimedShot, AIMED_DRAW_S, 0, CastKind::Aimed);
            Player { cds: Cooldowns { aimed: AIMED_CD_S, ..r.cds }, ..r }
        } else if rank >= 3 && m.cds.pin <= 0 {
            let r = cast_on(m, target, Ability::Pin, BOW_DRAW_S, 0, CastKind::Pin);
            Player { cds: Cooldowns { pin: PIN_CD_S, ..r.cds }, ..r }
        } else {
            cast_on(m, target, Ability::Fire, BOW_DRAW_S, 0, CastKind::Fire)
        }
    }
}

/// The player with a spell noted that it had no mana for.
pub open spec fn short_of_mana(p: Player) -> Player {
    Player { skipped_spell_for_mana: true, ..p }
}

/// The caster after mending itself.
#[verifier::opaque]
pub open spec fn mending(p: Player) -> Player {
    let q = p.casting(Ability::Mend, MEND_CAST_S, MEND_MANA as int, CastKind::Mend, None);
    Player { cds: Cooldowns { mend: MEND_CD_S, ..q.cds }, ..q }
}

/// The caster after raising its ward, which takes no time but the pause after it.
#[verifier::opaque]
pub open spec fn warding(p: Player) -> Player {
    let q = p.casting(Ability::Ward, 0, WARD_MANA as int, CastKind::Ward, None);
    Player {
        cds: Cooldowns { ward: WARD_CD_S, ..q.cds },
        gcd: WARD_GCD_S,
        ward: units_of(
            ward_absorb(q.stats.attrs.will as int, q.stats.ranks.arcane as int),
        ),
        ward_t: WARD_DUR_S,
        cast: None,
        busy: 0,
        ..q
    }
}

/// The caster after it burned at a mob, where the spell is ready.
#[verifier::opaque]
pub open spec fn burning(p: Player, target: i32) -> Player {
    if p.cds.ember > 0 {
        p
    } else if p.mana >= units_of(EMBER_MANA as int) {
        let r = cast_on(
            p,
            target,
            Ability::Ember,
            EMBER_CAST_S,
            EMBER_MANA as int,
            CastKind::Ember,
        );
        Player { cds: Cooldowns { ember: EMBER_CD_S, ..r.cds }, ..r }
    } else {
        short_of_mana(p)
    }
}

fn burn(p: &mut Player, target: i32)
    ensures
        *final(p) == burning(*old(p), target),
        final(p).stats == old(p).stats,
{
    proof {
        reveal(burning);
    }
    if p.cds.ember <= 0 {
        if p.mana >= units(EMBER_MANA) {
            cast_at(p, target, Ability::Ember, EMBER_CAST_S, EMBER_MANA, CastKind::Ember);
            let cds: Cooldowns = Cooldowns { ember: EMBER_CD_S, ..p.cds };
            p.cds = cds;
        } else {
            p.skipped_spell_for_mana = true;
        }
    }
}

/// The caster after it bound a mob.
#[verifier::opaque]
pub open spec fn binding(p: Player, held: i32) -> Player {
    let q = cast_on(p, held, Ability::Bind, BIND_CAST_S, BIND_MANA as int, CastKind::Bind);
    Player { cds: Cooldowns { bind: BIND_CD_S, ..q.cds }, ..q }
}

fn bind(p: &mut Player, held: i32)
    ensures
        *final(p) == binding(*old(p), held),
        final(p).stats == old(p).stats,
{
    proof {
        reveal(binding);
    }
    cast_at(p, held, Ability::Bind, BIND_CAST_S, BIND_MANA, CastKind::Bind);
    let cds: Cooldowns = Cooldowns { bind: BIND_CD_S, ..p.cds };
    p.cds = cds;
}

/// The caster's attack: binding a second mob, else burning the weakest in reach.
#[verifier::opaque]
pub open spec fn arcane_attack(p: Player, mobs: Seq<Mob>) -> Player {
    let reach = near_mask(mobs, p.x, EMBER_RANGE_M);
    let any = first_from(reach, 0) is Some;
    let pool = if any {
        reach
    } else {
        live_mask(mobs)
    };
    let focus = weakest(mobs, pool);
    if focus is None {
        p
    } else {
        let target = mobs[focus->0].idx;
        let other = first_from(other_mask(mobs, p.x, BIND_RANGE_M, target, true), 0);
        let bind = p.stats.ranks.arcane >= 5 && p.cds.bind <= 0 && other is Some;
        if bind && p.mana >= units_of(BIND_MANA as int) {
            binding(p, mobs[other->0].idx)
        } else {
            let q = if bind {
                short_of_mana(p)
            } else {
                p
            };
            if any {
                burning(q, target)
            } else {
                q
            }
        }
    }
}

/// What a caster starts: mending when hurt, warding against a slam or when hurt,
/// else an attack.
#[verifier::opaque]
pub open spec fn arcane_choice(p: Player, mobs: Seq<Mob>) -> Player {
    let rank = p.stats.ranks.arcane;
    let mend = rank >= 3 && below(p, HEALTH_50) && p.cds.mend <= 0;
    if mend && p.mana >= units_of(MEND_MANA as int) {
        mending(p)
    } else {
        let q = if mend {
            short_of_mana(p)
        } else {
            p
        };
        let ward = rank >= 7 && q.cds.ward <= 0 && (first_from(winding_mask(mobs), 0) is Some
            || below(q, HEALTH_60));
        if ward && q.mana >= units_of(WARD_MANA as int) {
            warding(q)
        } else if ward {
            arcane_attack(short_of_mana(q), mobs)
        } else {
            arcane_attack(q, mobs)
        }
    }
}

/// What the player starts, if it is free to act.
#[verifier::opaque]
pub open spec fn decided(p: Player, mobs: Seq<Mob>) -> Player {
    let disc = p.stats.discipline;
    let line = if disc == Discipline::Arcane {
        HEALTH_30
    } else {
        HEALTH_35
    };
    if !p.alive || p.busy > 0 || p.gcd > 0 || first_from(live_mask(mobs), 0) is None {
        p
    } else if p.potions > 0 && p.cds.potion <= 0 && below(p, line) {
        drunk(p)
    } else if disc == Discipline::Martial && p.stats.ranks.martial >= 10 && !p.second_wind_used
        && below(p, HEALTH_25) {
        winded(p)
    } else {
        match disc {
            Discipline::Martial => martial_choice(p, mobs),
            Discipline::Hunt => hunt_choice(p, mobs),
            Discipline::Arcane => arcane_choice(p, mobs),
        }
    }
}

fn drink(p: &mut Player)
    requires
        old(p).potions > i32::MIN,
    ensures
        *final(p) == drunk(*old(p)),
        final(p).stats == old(p).stats,
{
    proof {
        reveal(drunk);
    }
    let before: Player = *p;
    *p = Player {
        hp: least(plus(before.hp, units(POTION_HEAL)), units(before.max_hp)),
        potions: before.potions - 1,
        cds: Cooldowns { potion: POTION_CD_S, ..before.cds },
        ..before
    };
    p.bump_spell(Ability::Potion);
}

fn catch_breath(p: &mut Player)
    ensures
        *final(p) == winded(*old(p)),
        final(p).stats == old(p).stats,
{
    proof {
        reveal(winded);
    }
    let before: Player = *p;
    *p = Player {
        hp: least(plus(before.hp, times(SECOND_WIND_PCT, before.max_hp)), units(before.max_hp)),
        second_wind_used: true,
        ..before
    };
    p.bump_spell(Ability::SecondWind);
}

fn choose_martial(p: &mut Player, mobs: &Vec<Mob>)
    ensures
        *final(p) == martial_choice(*old(p), mobs@),
        final(p).stats == old(p).stats,
{
    proof {
        reveal(martial_choice);
    }
    let rank: i32 = p.rank(Discipline::Martial);
    let mask: Vec<bool> = winding(mobs);
    let slam: Option<usize> = first_marked(&mask);
    if rank >= 3 && p.cds.bash <= 0 {
        match slam {
            Some(i) => {
                let _started: bool = start_cast(
                    p,
                    Ability::Bash,
                    BASH_ANIM_S,
                    0,
                    CastKind::Bash,
                    Some(mobs[i].idx),
                );
                let cds: Cooldowns = Cooldowns { bash: BASH_CD_S, ..p.cds };
                p.cds = cds;
                return;
            },
            None => {},
        }
    }
    if rank >= 1 && p.cds.strike <= 0 && !p.strike_armed {
        let before: Player = *p;
        *p = Player {
            strike_armed: true,
            cds: Cooldowns { strike: STRIKE_CD_S, ..before.cds },
            ..before
        };
        p.bump_spell(Ability::Strike);
    }
}

fn set_mark(p: &mut Player)
    ensures
        *final(p) == marking(*old(p)),
        final(p).stats == old(p).stats,
{
    proof {
        reveal(marking);
    }
    if p.rank(Discipline::Hunt) >= 10 && p.cds.mark <= 0 {
        let before: Player = *p;
        *p = Player {
            mark_t: MARK_DUR_S,
            cds: Cooldowns { mark: MARK_CD_S, ..before.cds },
            ..before
        };
        p.bump_spell(Ability::Mark);
    }
}

fn choose_hunt(p: &mut Player, mobs: &Vec<Mob>)
    ensures
        *final(p) == hunt_choice(*old(p), mobs@),
        final(p).stats == old(p).stats,
{
    proof {
        reveal(hunt_choice);
    }
    let live: Vec<bool> = living(mobs);
    let low: usize = match lowest_hp(mobs, &live) {
        Some(i) => i,
        None => {
            return;
        },
    };
    if p.arrows <= 0 {
        return;
    }
    set_mark(p);
    let rank: i32 = p.rank(Discipline::Hunt);
    let target: i32 = mobs[low].idx;
    if rank >= 1 && p.cds.aimed <= 0 {
        cast_at(p, target, Ability::AimedShot, AIMED_DRAW_S, 0, CastKind::Aimed);
        let cds: Cooldowns = Cooldowns { aimed: AIMED_CD_S, ..p.cds };
        p.cds = cds;
    } else if rank >= 3 && p.cds.pin <= 0 {
        cast_at(p, target, Ability::Pin, BOW_DRAW_S, 0, CastKind::Pin);
        let cds: Cooldowns = Cooldowns { pin: PIN_CD_S, ..p.cds };
        p.cds = cds;
    } else {
        cast_at(p, target, Ability::Fire, BOW_DRAW_S, 0, CastKind::Fire);
    }
}

fn start_mend(p: &mut Player)
    ensures
        *final(p) == mending(*old(p)),
        final(p).stats == old(p).stats,
{
    proof {
        reveal(mending);
    }
    let _started: bool = start_cast(p, Ability::Mend, MEND_CAST_S, MEND_MANA, CastKind::Mend, None);
    let cds: Cooldowns = Cooldowns { mend: MEND_CD_S, ..p.cds };
    p.cds = cds;
}

fn raise_ward(p: &mut Player)
    ensures
        *final(p) == warding(*old(p)),
        final(p).stats == old(p).stats,
{
    proof {
        reveal(warding);
    }
    let _started: bool = start_cast(p, Ability::Ward, 0, WARD_MANA, CastKind::Ward, None);
    let q: Player = *p;
    *p = Player {
        cds: Cooldowns { ward: WARD_CD_S, ..q.cds },
        gcd: WARD_GCD_S,
        ward: units(q.stats.ward()),
        ward_t: WARD_DUR_S,
        cast: None,
        busy: 0,
        ..q
    };
}

fn attack_arcane(p: &mut Player, mobs: &Vec<Mob>)
    ensures
        *final(p) == arcane_attack(*old(p), mobs@),
        final(p).stats == old(p).stats,
{
    proof {
        reveal(arcane_attack);
    }
    let start: Player = *p;
    let reach: Vec<bool> = near(mobs, start.x, EMBER_RANGE_M);
    let any: bool = first_marked(&reach).is_some();
    let live: Vec<bool> = living(mobs);
    let found: Option<usize> = if any {
        lowest_hp(mobs, &reach)
    } else {
        lowest_hp(mobs, &live)
    };
    let focus: usize = match found {
        Some(i) => i,
        None => {
            return;
        },
    };
    let target: i32 = mobs[focus].idx;
    let mask: Vec<bool> = others(mobs, start.x, BIND_RANGE_M, target, true);
    let other: Option<usize> = first_marked(&mask);
    if start.stats.ranks.arcane >= 5 && start.cds.bind <= 0 {
        match other {
            Some(i) => {
                if start.mana >= units(BIND_MANA) {
                    bind(p, mobs[i].idx);
                    return;
                }
                p.skipped_spell_for_mana = true;
            },
            None => {},
        }
    }
    if any {
        burn(p, target);
    }
}

fn choose_arcane(p: &mut Player, mobs: &Vec<Mob>)
    ensures
        *final(p) == arcane_choice(*old(p), mobs@),
        final(p).stats == old(p).stats,
{
    proof {
        reveal(arcane_choice);
    }
    let rank: i32 = p.rank(Discipline::Arcane);
    if rank >= 3 && is_below(p, HEALTH_50) && p.cds.mend <= 0 {
        if p.mana >= units(MEND_MANA) {
            start_mend(p);
            return;
        }
        p.skipped_spell_for_mana = true;
    }
    let mask: Vec<bool> = winding(mobs);
    let slamming: bool = first_marked(&mask).is_some();
    if rank >= 7 && p.cds.ward <= 0 && (slamming || is_below(p, HEALTH_60)) {
        if p.mana >= units(WARD_MANA) {
            raise_ward(p);
            return;
        }
        p.skipped_spell_for_mana = true;
    }
    attack_arcane(p, mobs);
}

/// Lets the player start something, if it is free to act.
pub fn player_ai_start(p: &mut Player, mobs: &Vec<Mob>)
    ensures
        *final(p) == decided(*old(p), mobs@),
        final(p).stats == old(p).stats,
{
    proof {
        reveal(decided);
    }
    if !p.alive || p.busy > 0 || p.gcd > 0 {
        return;
    }
    let live: Vec<bool> = living(mobs);
    if first_marked(&live).is_none() {
        return;
    }
    let disc: Discipline = p.stats.discipline;
    let line: i128 = if disc == Discipline::Arcane {
        HEALTH_30
    } else {
        HEALTH_35
    };
    if p.potions > 0 && p.cds.potion <= 0 && is_below(p, line) {
        drink(p);
        return;
    }
    if disc == Discipline::Martial && p.rank(Discipline::Martial) >= 10 && !p.second_wind_used
        && is_below(p, HEALTH_25) {
        catch_breath(p);
        return;
    }
    match disc {
        Discipline::Martial => choose_martial(p, mobs),
        Discipline::Hunt => choose_hunt(p, mobs),
        Discipline::Arcane => choose_arcane(p, mobs),
    }
}

/// The position of the mob numbered `idx`, from `i` on.
pub open spec fn numbered(mobs: Seq<Mob>, idx: i32, i: int) -> Option<int>
    decreases mobs.len() - i,
{
    if i >= mobs.len() || i < 0 {
        None
    } else if mobs[i].idx == idx {
        Some(i)
    } else {
        numbered(mobs, idx, i + 1)
    }
}

fn find_mob(mobs: &Vec<Mob>, idx: i32) -> (r: Option<usize>)
    ensures
        match r {
            Some(i) => numbered(mobs@, idx, 0) == Some(i as int) && i < mobs@.len(),
            None => numbered(mobs@, idx, 0) is None,
        },
{
    let mut i: usize = 0;
    while i < mobs.len()
        invariant
            i <= mobs@.len(),
            numbered(mobs@, idx, 0) == numbered(mobs@, idx, i as int),
        decreases mobs@.len() - i,
    {
        if mobs[i].idx == idx {
            return Some(i);
        }
        i += 1;
    }
    None
}

/// The mobs that live and are numbered `idx`.
pub open spec fn lock_mask(mobs: Seq<Mob>, idx: i32) -> Seq<bool> {
    Seq::new(mobs.len(), |i: int| mobs[i].alive && mobs[i].idx == idx)
}

fn locked(mobs: &Vec<Mob>, idx: i32) -> (r: Vec<bool>)
    ensures
        r@ == lock_mask(mobs@, idx),
{
    let mut r: Vec<bool> = Vec::new();
    let mut i: usize = 0;
    while i < mobs.len()
        invariant
            i <= mobs@.len(),
            r@.len() == i,
            forall|j: int| 0 <= j < i ==> #[trigger] r@[j] == lock_mask(mobs@, idx)[j],
        decreases mobs@.len() - i,
    {
        r.push(mobs[i].alive && mobs[i].idx == idx);
        i += 1;
    }
    assert(r@ =~= lock_mask(mobs@, idx));
    r
}

/// The player after its heal, and the mobs: the locked one notes half of it.
#[verifier::opaque]
pub open spec fn healed(p: Player, mobs: Seq<Mob>) -> (Player, Seq<Mob>) {
    let heal = mend_heal(p.stats.attrs.will as int, p.stats.ranks.arcane as int);
    let q = Player {
        hp: lesser(sum_of(p.hp, units_of(heal)), units_of(p.max_hp as int)),
        ..p
    };
    let at = if p.lock is Some {
        first_from(lock_mask(mobs, p.lock->0), 0)
    } else {
        None
    };
    if at is Some {
        let m = mobs[at->0];
        (q, mobs.update(at->0, Mob { threat_halves: tally(m.threat_halves, heal), ..m }))
    } else {
        (q, mobs)
    }
}

fn heal(p: &mut Player, mobs: &mut Vec<Mob>)
    ensures
        (*final(p), final(mobs)@) == healed(*old(p), old(mobs)@),
        final(p).stats == old(p).stats,
        final(mobs)@.len() == old(mobs)@.len(),
{
    proof {
        reveal(healed);
    }
    let before: Player = *p;
    let heal: i32 = before.stats.mend();
    *p = Player {
        hp: least(plus(before.hp, units(heal)), units(before.max_hp)),
        ..before
    };
    match before.lock {
        Some(lock) => {
            let mask: Vec<bool> = locked(mobs, lock);
            match first_marked(&mask) {
                Some(i) => {
                    let m: Mob = mobs[i];
                    mobs.set(
                        i,
                        Mob { threat_halves: count_up(m.threat_halves, heal as i64), ..m },
                    );
                },
                None => {},
            }
        },
        None => {},
    }
}

/// The player and a living mob after an arrow: a blow where the mob stands in
/// range. A pin slows what survives.
#[verifier::opaque]
pub open spec fn arrow_flown(p: Player, m: Mob, kind: CastKind) -> (Player, Mob) {
    let raw = bow_damage(
        p.stats.attrs.swift as int,
        p.stats.weapon_skill as int,
        p.stats.ranks.hunt as int,
        kind == CastKind::Aimed,
        gap_of(m.x, p.x),
    );
    let n = if raw > 0 {
        m.wounded(dealt_to(p, m, raw))
    } else {
        m
    };
    let t = p.practised();
    (
        if raw > 0 {
            Player { swings: tally(t.swings, 1), ..t }
        } else {
            p
        },
        if kind == CastKind::Pin && n.alive {
            Mob { slow: PIN_DUR_S, ..n }
        } else {
            n
        },
    )
}

fn fly_arrow(p: &mut Player, m: &mut Mob, kind: CastKind)
    ensures
        (*final(p), *final(m)) == arrow_flown(*old(p), *old(m), kind),
{
    proof {
        reveal(arrow_flown);
    }
    let raw: i32 = p.stats.bow_hit(kind == CastKind::Aimed, gap(m.x, p.x));
    if raw > 0 {
        let _dealt: i32 = hit_mob(p, m, raw);
        p.swings = count_up(p.swings, 1);
    }
    if kind == CastKind::Pin && m.alive {
        m.slow = PIN_DUR_S;
    }
}

/// The fight after an arrow was loosed at the mob at `at`: one arrow fewer, and the
/// arrow flies where the mob lives.
#[verifier::opaque]
pub open spec fn shot(p: Player, mobs: Seq<Mob>, at: Option<int>, kind: CastKind) -> (
    Player,
    Seq<Mob>,
) {
    if p.arrows <= 0 {
        (p, mobs)
    } else {
        let q = Player { arrows: (p.arrows - 1) as i32, ..p };
        if at is None || !mobs[at->0].alive {
            (q, mobs)
        } else {
            let out = arrow_flown(q, mobs[at->0], kind);
            (out.0, mobs.update(at->0, out.1))
        }
    }
}

fn shoot(p: &mut Player, mobs: &mut Vec<Mob>, at: Option<usize>, kind: CastKind)
    requires
        at is Some ==> at->0 < old(mobs)@.len(),
    ensures
        (*final(p), final(mobs)@) == shot(
            *old(p),
            old(mobs)@,
            match at {
                Some(i) => Some(i as int),
                None => None,
            },
            kind,
        ),
        final(mobs)@.len() == old(mobs)@.len(),
{
    proof {
        reveal(shot);
    }
    if p.arrows <= 0 {
        return;
    }
    p.arrows = p.arrows - 1;
    let i: usize = match at {
        Some(i) => i,
        None => {
            return;
        },
    };
    let mut m: Mob = mobs[i];
    if !m.alive {
        return;
    }
    fly_arrow(p, &mut m, kind);
    mobs.set(i, m);
}

/// A living mob after a bash: its slam is broken and it is stunned.
#[verifier::opaque]
pub open spec fn bashed(m: Mob) -> Mob {
    if m.alive {
        Mob { tele: 0, stun: greater(m.stun, BASH_STUN_S), ..m }
    } else {
        m
    }
}

/// A living mob after a bind from `x`, where it stands in range.
#[verifier::opaque]
pub open spec fn rooted(m: Mob, x: i128) -> Mob {
    if m.alive && gap_of(m.x, x) <= BIND_RANGE_M {
        Mob { root: BIND_ROOT_S, root_grace: BIND_GRACE_S, ..m }
    } else {
        m
    }
}

/// The player and a mob after an ember, where the mob lives and stands in range.
#[verifier::opaque]
pub open spec fn burnt(p: Player, m: Mob) -> (Player, Mob) {
    let raw = ember_damage(
        p.stats.attrs.will as int,
        p.stats.weapon_skill as int,
        p.stats.ranks.arcane as int,
    );
    if m.alive && gap_of(m.x, p.x) <= EMBER_RANGE_M {
        (p.practised(), m.wounded(dealt_to(p, m, raw)))
    } else {
        (p, m)
    }
}

fn bash_mob(m: &Mob) -> (r: Mob)
    ensures
        r == bashed(*m),
{
    proof {
        reveal(bashed);
    }
    if m.alive {
        Mob { tele: 0, stun: most(m.stun, BASH_STUN_S), ..*m }
    } else {
        *m
    }
}

fn root_mob(m: &Mob, x: i128) -> (r: Mob)
    ensures
        r == rooted(*m, x),
{
    proof {
        reveal(rooted);
    }
    if m.alive && gap(m.x, x) <= BIND_RANGE_M {
        Mob { root: BIND_ROOT_S, root_grace: BIND_GRACE_S, ..*m }
    } else {
        *m
    }
}

fn burn_mob(p: &mut Player, m: &mut Mob)
    ensures
        (*final(p), *final(m)) == burnt(*old(p), *old(m)),
{
    proof {
        reveal(burnt);
    }
    if m.alive && gap(m.x, p.x) <= EMBER_RANGE_M {
        let raw: i32 = p.stats.ember();
        let _dealt: i32 = hit_mob(p, m, raw);
    }
}

/// The fight after a cast of `kind` took effect on the mob at `at`.
#[verifier::opaque]
pub open spec fn cast_lands(p: Player, mobs: Seq<Mob>, kind: CastKind, at: Option<int>) -> (
    Player,
    Seq<Mob>,
) {
    match kind {
        CastKind::Mend => healed(p, mobs),
        CastKind::Aimed => shot(p, mobs, at, kind),
        CastKind::Pin => shot(p, mobs, at, kind),
        CastKind::Fire => shot(p, mobs, at, kind),
        CastKind::Bash => if at is Some {
            (p, mobs.update(at->0, bashed(mobs[at->0])))
        } else {
            (p, mobs)
        },
        CastKind::Bind => if at is Some {
            (p, mobs.update(at->0, rooted(mobs[at->0], p.x)))
        } else {
            (p, mobs)
        },
        CastKind::Ember => if at is Some {
            let out = burnt(p, mobs[at->0]);
            (out.0, mobs.update(at->0, out.1))
        } else {
            (p, mobs)
        },
        CastKind::Ward => (p, mobs),
    }
}

fn land_cast(p: &mut Player, mobs: &mut Vec<Mob>, kind: CastKind, at: Option<usize>)
    requires
        at is Some ==> at->0 < old(mobs)@.len(),
    ensures
        (*final(p), final(mobs)@) == cast_lands(
            *old(p),
            old(mobs)@,
            kind,
            match at {
                Some(i) => Some(i as int),
                None => None,
            },
        ),
        final(mobs)@.len() == old(mobs)@.len(),
{
    proof {
        reveal(cast_lands);
    }
    match kind {
        CastKind::Mend => heal(p, mobs),
        CastKind::Aimed => shoot(p, mobs, at, kind),
        CastKind::Pin => shoot(p, mobs, at, kind),
        CastKind::Fire => shoot(p, mobs, at, kind),
        CastKind::Bash => match at {
            Some(i) => {
                let m: Mob = bash_mob(&mobs[i]);
                mobs.set(i, m);
            },
            None => {},
        },
        CastKind::Bind => match at {
            Some(i) => {
                let m: Mob = root_mob(&mobs[i], p.x);
                mobs.set(i, m);
            },
            None => {},
        },
        CastKind::Ember => match at {
            Some(i) => {
                let mut m: Mob = mobs[i];
                burn_mob(p, &mut m);
                mobs.set(i, m);
            },
            None => {},
        },
        CastKind::Ward => {},
    }
}

/// The fight after a finished cast.
#[verifier::opaque]
pub open spec fn finished(p: Player, mobs: Seq<Mob>) -> (Player, Seq<Mob>) {
    if p.cast is None {
        (p, mobs)
    } else {
        let cast = p.cast->0;
        let at = if cast.target is Some {
            numbered(mobs, cast.target->0, 0)
        } else {
            None
        };
        cast_lands(Player { cast: None, ..p }, mobs, cast.kind, at)
    }
}

pub fn finish_cast(p: &mut Player, mobs: &mut Vec<Mob>)
    ensures
        (*final(p), final(mobs)@) == finished(*old(p), old(mobs)@),
        final(mobs)@.len() == old(mobs)@.len(),
{
    proof {
        reveal(finished);
    }
    let before: Player = *p;
    match before.cast {
        Some(cast) => {
            let at: Option<usize> = match cast.target {
                Some(idx) => find_mob(mobs, idx),
                None => None,
            };
            *p = Player { cast: None, ..before };
            land_cast(p, mobs, cast.kind, at);
        },
        None => {},
    }
}

/// The number of the mob a Martial fighter swings at: the locked one while it
/// lives, else the first that lives.
pub open spec fn swing_target(p: Player, mobs: Seq<Mob>) -> Option<i32> {
    let live = first_from(live_mask(mobs), 0);
    if live is None {
        None
    } else if p.lock is Some && first_from(lock_mask(mobs, p.lock->0), 0) is Some {
        p.lock
    } else {
        Some(mobs[live->0].idx)
    }
}

/// The fight after a second mob in reach took its share of a swing.
#[verifier::opaque]
pub open spec fn cleaved(p: Player, mobs: Seq<Mob>, raw: int, target: i32) -> (Player, Seq<Mob>) {
    let other = first_from(other_mask(mobs, p.x, CLEAVE_RANGE_M, target, false), 0);
    if p.stats.ranks.martial >= 7 && other is Some {
        let m = mobs[other->0];
        (
            p.practised(),
            mobs.update(other->0, m.wounded(dealt_to(p, m, share_of(CLEAVE_PCT, raw)))),
        )
    } else {
        (p, mobs)
    }
}

fn cleave(p: &mut Player, mobs: &mut Vec<Mob>, raw: i32, target: i32)
    ensures
        (*final(p), final(mobs)@) == cleaved(*old(p), old(mobs)@, raw as int, target),
        final(mobs)@.len() == old(mobs)@.len(),
{
    proof {
        reveal(cleaved);
    }
    let mask: Vec<bool> = others(mobs, p.x, CLEAVE_RANGE_M, target, false);
    if p.stats.ranks.martial >= 7 {
        match first_marked(&mask) {
            Some(i) => {
                let mut m: Mob = mobs[i];
                let share: i32 = take_share(CLEAVE_PCT, raw);
                let _dealt: i32 = hit_mob(p, &mut m, share);
                mobs.set(i, m);
            },
            None => {},
        }
    }
}

/// The fight after a swing at the mob at `at`, which spends an armed strike.
#[verifier::opaque]
pub open spec fn swing_lands(p: Player, mobs: Seq<Mob>, at: int) -> (Player, Seq<Mob>) {
    let m = mobs[at];
    let raw = melee_damage(
        p.stats.attrs.might as int,
        p.stats.weapon_skill as int,
        p.stats.ranks.martial as int,
        p.strike_armed,
    );
    let r = Player { strike_armed: false, swings: tally(p.swings, 1), ..p };
    cleaved(
        r.practised(),
        mobs.update(at, m.wounded(dealt_to(r, m, raw))),
        raw,
        m.idx,
    )
}

fn land_swing(p: &mut Player, mobs: &mut Vec<Mob>, at: usize)
    requires
        at < old(mobs)@.len(),
    ensures
        (*final(p), final(mobs)@) == swing_lands(*old(p), old(mobs)@, at as int),
        final(mobs)@.len() == old(mobs)@.len(),
{
    proof {
        reveal(swing_lands);
    }
    let mut m: Mob = mobs[at];
    let target: i32 = m.idx;
    let raw: i32 = p.stats.melee_hit(p.strike_armed);
    let before: Player = *p;
    *p = Player { strike_armed: false, swings: count_up(before.swings, 1), ..before };
    let _dealt: i32 = hit_mob(p, &mut m, raw);
    mobs.set(at, m);
    cleave(p, mobs, raw, target);
}

/// The fight after a Martial fighter's swing.
#[verifier::opaque]
pub open spec fn swung(p: Player, mobs: Seq<Mob>) -> (Player, Seq<Mob>) {
    let target = swing_target(p, mobs);
    if p.stats.discipline != Discipline::Martial || !p.alive || target is None {
        (p, mobs)
    } else {
        let q = Player { lock: target, ..p };
        let at = first_from(lock_mask(mobs, target->0), 0);
        if at is None || gap_of(mobs[at->0].x, q.x) > MELEE_REACH_M {
            (q, mobs)
        } else {
            swing_lands(q, mobs, at->0)
        }
    }
}

fn pick_target(p: &Player, mobs: &Vec<Mob>) -> (r: Option<i32>)
    ensures
        r == swing_target(*p, mobs@),
{
    let live: Vec<bool> = living(mobs);
    match first_marked(&live) {
        None => None,
        Some(first) => match p.lock {
            Some(idx) => {
                let mask: Vec<bool> = locked(mobs, idx);
                if first_marked(&mask).is_some() {
                    Some(idx)
                } else {
                    Some(mobs[first].idx)
                }
            },
            None => Some(mobs[first].idx),
        },
    }
}

pub fn martial_auto(p: &mut Player, mobs: &mut Vec<Mob>)
    ensures
        (*final(p), final(mobs)@) == swung(*old(p), old(mobs)@),
        final(mobs)@.len() == old(mobs)@.len(),
{
    proof {
        reveal(swung);
    }
    let before: Player = *p;
    if before.stats.discipline != Discipline::Martial || !before.alive {
        return;
    }
    match pick_target(&before, mobs) {
        Some(target) => {
            *p = Player { lock: Some(target), ..before };
            let mask: Vec<bool> = locked(mobs, target);
            match first_marked(&mask) {
                Some(at) => {
                    if gap(mobs[at].x, before.x) <= MELEE_REACH_M {
                        land_swing(p, mobs, at);
                    }
                },
                None => {},
            }
        },
        None => {},
    }
}

/// A mob's damage, greater in a rage.
pub open spec fn mob_blow(m: Mob, base: int) -> int {
    if m.enraged {
        share_of(MOTHER_ENRAGE_DMG, base)
    } else {
        as_small(base)
    }
}

fn blow_of(m: &Mob, base: i32) -> (r: i32)
    ensures
        r == mob_blow(*m, base as int),
{
    if m.enraged {
        take_share(MOTHER_ENRAGE_DMG, base)
    } else {
        base
    }
}

/// The fight after a tick of a mob's slam: the wind-up runs and falls on a player
/// in reach, or the wait for the next one runs.
#[verifier::opaque]
pub open spec fn slammed(p: Player, m: Mob) -> (Player, Mob) {
    if !m.has_slam {
        (p, m)
    } else if m.tele > 0 {
        let n = Mob { tele: run_down(m.tele), ..m };
        if n.tele <= 0 && p.alive && gap_of(m.x, p.x) <= m.reach {
            (
                p.struck(
                    mitigated(mob_blow(m, m.slam_dmg as int), p.stats.attrs.grit as int),
                    true,
                ),
                n,
            )
        } else {
            (p, n)
        }
    } else {
        let cd = diff_of(m.slam_cd, TICK);
        if cd <= 0 {
            let every = match m.sheet.slam_every_s {
                Some(s) => s,
                None => SLAM_EVERY_S,
            };
            (p, Mob { tele: m.tele_len, slam_cd: sum_of(cd, every), ..m })
        } else {
            (p, Mob { slam_cd: cd, ..m })
        }
    }
}

/// How often a mob slams whose sheet does not say.
pub const SLAM_EVERY_S: i128 = 9_223_372_036_854_775_808;

fn slam(p: &mut Player, m: &mut Mob)
    ensures
        (*final(p), *final(m)) == slammed(*old(p), *old(m)),
        final(p).stats == old(p).stats,
{
    proof {
        reveal(slammed);
    }
    let before: Mob = *m;
    if !before.has_slam {
        return;
    }
    if before.tele > 0 {
        let tele: i128 = tick_down(before.tele);
        *m = Mob { tele, ..before };
        if tele <= 0 && p.alive && gap(before.x, p.x) <= before.reach {
            let dealt: i32 = mitigation(units(blow_of(&before, before.slam_dmg)), p.stats.attrs.grit);
            let _left: i32 = apply_player_damage(p, dealt, true);
        }
    } else {
        let cd: i128 = minus(before.slam_cd, TICK);
        if cd <= 0 {
            let every: i128 = match before.sheet.slam_every_s {
                Some(s) => s,
                None => SLAM_EVERY_S,
            };
            *m = Mob { tele: before.tele_len, slam_cd: plus(cd, every), ..before };
        } else {
            *m = Mob { slam_cd: cd, ..before };
        }
    }
}

/// The player after a mob's bite; a scorpion's poisons.
#[verifier::opaque]
pub open spec fn bitten(p: Player, m: Mob) -> Player {
    let q = p.struck(
        mitigated(mob_blow(m, m.base_dmg as int), p.stats.attrs.grit as int),
        true,
    );
    if m.sheet.kind == MobKind::Scorpion && q.alive {
        Player { poison_t: SCORP_POISON_S, ..q }
    } else {
        q
    }
}

fn bite(p: &mut Player, m: &Mob)
    ensures
        *final(p) == bitten(*old(p), *m),
        final(p).stats == old(p).stats,
{
    proof {
        reveal(bitten);
    }
    let dealt: i32 = mitigation(units(blow_of(m, m.base_dmg)), p.stats.attrs.grit);
    let _left: i32 = apply_player_damage(p, dealt, true);
    if m.sheet.kind == MobKind::Scorpion && p.alive {
        let q: Player = *p;
        *p = Player { poison_t: SCORP_POISON_S, ..q };
    }
}

/// The fight after a tick of a mob's swing: in reach its wait runs, and it bites
/// when that is over.
#[verifier::opaque]
pub open spec fn swiped(p: Player, m: Mob) -> (Player, Mob) {
    if gap_of(m.x, p.x) <= m.reach {
        let cd = diff_of(m.auto_cd, TICK);
        if cd <= 0 {
            (bitten(p, m), Mob { auto_cd: sum_of(cd, m.swing), ..m })
        } else {
            (p, Mob { auto_cd: cd, ..m })
        }
    } else {
        (p, m)
    }
}

fn swipe(p: &mut Player, m: &mut Mob)
    ensures
        (*final(p), *final(m)) == swiped(*old(p), *old(m)),
        final(p).stats == old(p).stats,
{
    proof {
        reveal(swiped);
    }
    let before: Mob = *m;
    if gap(before.x, p.x) <= before.reach {
        let cd: i128 = minus(before.auto_cd, TICK);
        if cd <= 0 {
            bite(p, &before);
            *m = Mob { auto_cd: plus(cd, before.swing), ..before };
        } else {
            *m = Mob { auto_cd: cd, ..before };
        }
    }
}

/// The fight after a mob's turn. The dead and the stunned lose theirs.
pub open spec fn mob_acts(p: Player, m: Mob) -> (Player, Mob) {
    if !m.alive || m.stun > 0 {
        (p, m)
    } else {
        let s = slammed(p, m);
        swiped(s.0, s.1)
    }
}

/// The fight after the turns of the first `n` mobs, in order.
pub open spec fn mobs_act(p: Player, mobs: Seq<Mob>, n: nat) -> (Player, Seq<Mob>)
    decreases n,
{
    if n == 0 {
        (p, mobs)
    } else {
        let before = mobs_act(p, mobs, (n - 1) as nat);
        let out = mob_acts(before.0, mobs[n - 1]);
        (out.0, before.1.update(n - 1, out.1))
    }
}

fn take_turns(p: &mut Player, mobs: &mut Vec<Mob>)
    ensures
        (*final(p), final(mobs)@) == mobs_act(*old(p), old(mobs)@, old(mobs)@.len()),
        final(p).stats == old(p).stats,
        final(mobs)@.len() == old(mobs)@.len(),
{
    let ghost p0 = *p;
    let ghost start = mobs@;
    let mut i: usize = 0;
    while i < mobs.len()
        invariant
            i <= mobs@.len(),
            mobs@.len() == start.len(),
            (*p, mobs@) == mobs_act(p0, start, i as nat),
            p.stats == p0.stats,
            forall|j: int| i <= j < start.len() ==> #[trigger] mobs@[j] == start[j],
        decreases mobs@.len() - i,
    {
        let mut m: Mob = mobs[i];
        if m.alive && m.stun <= 0 {
            slam(p, &mut m);
            swipe(p, &mut m);
        }
        let ghost before = mobs@;
        mobs.set(i, m);
        assert(mobs@ =~= before.update(i as int, m));
        i += 1;
    }
}

/// The mobs that live and are not rooted.
pub open spec fn loose_mask(mobs: Seq<Mob>) -> Seq<bool> {
    Seq::new(mobs.len(), |i: int| mobs[i].alive && mobs[i].root <= 0)
}

fn loose(mobs: &Vec<Mob>) -> (r: Vec<bool>)
    ensures
        r@ == loose_mask(mobs@),
{
    let mut r: Vec<bool> = Vec::new();
    let mut i: usize = 0;
    while i < mobs.len()
        invariant
            i <= mobs@.len(),
            r@.len() == i,
            forall|j: int| 0 <= j < i ==> #[trigger] r@[j] == loose_mask(mobs@)[j],
        decreases mobs@.len() - i,
    {
        r.push(mobs[i].alive && mobs[i].root <= 0);
        i += 1;
    }
    assert(r@ =~= loose_mask(mobs@));
    r
}

/// The distance from `x` to the nearest of the marked mobs below `n`.
pub open spec fn nearest_upto(mobs: Seq<Mob>, mask: Seq<bool>, x: i128, n: nat) -> Option<i128>
    decreases n,
{
    if n == 0 {
        None
    } else {
        let best = nearest_upto(mobs, mask, x, (n - 1) as nat);
        let d = gap_of(mobs[n - 1].x, x);
        if mask[n - 1] && (best is None || d < best->0) {
            Some(d)
        } else {
            best
        }
    }
}

fn nearest(mobs: &Vec<Mob>, mask: &Vec<bool>, x: i128) -> (r: Option<i128>)
    requires
        mask@.len() == mobs@.len(),
    ensures
        r == nearest_upto(mobs@, mask@, x, mobs@.len()),
{
    let mut best: Option<i128> = None;
    let mut i: usize = 0;
    while i < mobs.len()
        invariant
            i <= mobs@.len(),
            mask@.len() == mobs@.len(),
            best == nearest_upto(mobs@, mask@, x, i as nat),
        decreases mobs@.len() - i,
    {
        if mask[i] {
            let d: i128 = gap(mobs[i].x, x);
            best = match best {
                None => Some(d),
                Some(b) => if d < b {
                    Some(d)
                } else {
                    Some(b)
                },
            };
        }
        i += 1;
    }
    best
}

/// The player after a step: away where the nearest chaser, or else the nearest
/// mob, is closer than it likes, towards it where that is farther off.
#[verifier::opaque]
pub open spec fn stepped(p: Player, mobs: Seq<Mob>, desired: i128) -> Player {
    let chasing = loose_mask(mobs);
    let d = if first_from(chasing, 0) is Some {
        nearest_upto(mobs, chasing, p.x, mobs.len())
    } else {
        nearest_upto(mobs, live_mask(mobs), p.x, mobs.len())
    };
    if d is None {
        p
    } else if d->0 < diff_of(desired, RANGE_SLACK) {
        if p.stats.discipline == Discipline::Martial {
            Player { x: diff_of(p.x, WALK_STEP), ..p }
        } else {
            Player { x: diff_of(p.x, SPRINT_STEP), sprinted: true, ..p }
        }
    } else if d->0 > sum_of(desired, RANGE_SLACK) {
        Player { x: sum_of(p.x, WALK_STEP), ..p }
    } else {
        p
    }
}

fn step_player(p: &mut Player, mobs: &Vec<Mob>, desired: i128)
    ensures
        *final(p) == stepped(*old(p), mobs@, desired),
        final(p).stats == old(p).stats,
{
    proof {
        reveal(stepped);
    }
    let before: Player = *p;
    let chasing: Vec<bool> = loose(mobs);
    let live: Vec<bool> = living(mobs);
    let found: Option<i128> = if first_marked(&chasing).is_some() {
        nearest(mobs, &chasing, before.x)
    } else {
        nearest(mobs, &live, before.x)
    };
    match found {
        None => {},
        Some(d) => {
            if d < minus(desired, RANGE_SLACK) {
                if before.stats.discipline == Discipline::Martial {
                    *p = Player { x: minus(before.x, WALK_STEP), ..before };
                } else {
                    *p = Player { x: minus(before.x, SPRINT_STEP), sprinted: true, ..before };
                }
            } else if d > plus(desired, RANGE_SLACK) {
                *p = Player { x: plus(before.x, WALK_STEP), ..before };
            }
        },
    }
}

/// A mob after a step towards the player at `x`, never past it. The dead, the
/// stunned and the rooted stay.
#[verifier::opaque]
pub open spec fn closed_in(m: Mob, x: i128) -> Mob {
    if !m.alive || m.stun > 0 || m.root > 0 {
        m
    } else {
        let way = if m.slow > 0 {
            m.sheet.slow_step_m
        } else {
            m.sheet.step_m
        };
        if m.x > x {
            Mob { x: greater(x, diff_of(m.x, way)), ..m }
        } else {
            Mob { x: lesser(x, sum_of(m.x, way)), ..m }
        }
    }
}

fn step_mob(m: &Mob, x: i128) -> (r: Mob)
    ensures
        r == closed_in(*m, x),
{
    proof {
        reveal(closed_in);
    }
    if !m.alive || m.stun > 0 || m.root > 0 {
        return *m;
    }
    let way: i128 = if m.slow > 0 {
        m.sheet.slow_step_m
    } else {
        m.sheet.step_m
    };
    if m.x > x {
        Mob { x: most(x, minus(m.x, way)), ..*m }
    } else {
        Mob { x: least(x, plus(m.x, way)), ..*m }
    }
}

/// All mobs after a step towards the player at `x`.
pub open spec fn all_closed_in(mobs: Seq<Mob>, x: i128) -> Seq<Mob> {
    Seq::new(mobs.len(), |i: int| closed_in(mobs[i], x))
}

/// The fight after everyone moved. Nobody moves once no mob lives.
pub open spec fn moved(p: Player, mobs: Seq<Mob>, desired: i128) -> (Player, Seq<Mob>) {
    if first_from(live_mask(mobs), 0) is None {
        (p, mobs)
    } else {
        let q = stepped(p, mobs, desired);
        (q, all_closed_in(mobs, q.x))
    }
}

pub fn move_entities(p: &mut Player, mobs: &mut Vec<Mob>, desired: i128)
    ensures
        (*final(p), final(mobs)@) == moved(*old(p), old(mobs)@, desired),
        final(p).stats == old(p).stats,
        final(mobs)@.len() == old(mobs)@.len(),
{
    let ghost start = mobs@;
    let live: Vec<bool> = living(mobs);
    if first_marked(&live).is_none() {
        return;
    }
    step_player(p, mobs, desired);
    let x: i128 = p.x;
    let mut i: usize = 0;
    while i < mobs.len()
        invariant
            i <= mobs@.len(),
            mobs@.len() == start.len(),
            forall|j: int|
                0 <= j < start.len() ==> #[trigger] mobs@[j] == if j < i {
                    closed_in(start[j], x)
                } else {
                    start[j]
                },
        decreases mobs@.len() - i,
    {
        let m: Mob = step_mob(&mobs[i], x);
        mobs.set(i, m);
        i += 1;
    }
    assert(mobs@ =~= all_closed_in(start, x));
}

/// The fight after the player's cast under way came a tick nearer to its end.
#[verifier::opaque]
pub open spec fn cast_runs(p: Player, mobs: Seq<Mob>) -> (Player, Seq<Mob>) {
    if p.busy > 0 {
        let q = Player { busy: run_down(p.busy), ..p };
        if q.busy <= 0 && q.cast is Some {
            finished(q, mobs)
        } else {
            (q, mobs)
        }
    } else {
        (p, mobs)
    }
}

fn run_cast(p: &mut Player, mobs: &mut Vec<Mob>)
    ensures
        (*final(p), final(mobs)@) == cast_runs(*old(p), old(mobs)@),
        final(mobs)@.len() == old(mobs)@.len(),
{
    proof {
        reveal(cast_runs);
    }
    let before: Player = *p;
    if before.busy > 0 {
        let busy: i128 = tick_down(before.busy);
        *p = Player { busy, ..before };
        if busy <= 0 && before.cast.is_some() {
            finish_cast(p, mobs);
        }
    }
}

/// The fight after a tick of a Martial fighter's own swing, which runs while a mob
/// is in reach.
#[verifier::opaque]
pub open spec fn auto_runs(p: Player, mobs: Seq<Mob>) -> (Player, Seq<Mob>) {
    if p.stats.discipline == Discipline::Martial && first_from(
        near_mask(mobs, p.x, MELEE_REACH_M),
        0,
    ) is Some {
        let cd = diff_of(p.auto_cd, TICK);
        let q = Player { auto_cd: cd, ..p };
        if cd <= 0 {
            let out = swung(q, mobs);
            (Player { auto_cd: sum_of(out.0.auto_cd, MELEE_SWING_S), ..out.0 }, out.1)
        } else {
            (q, mobs)
        }
    } else {
        (p, mobs)
    }
}

fn run_auto(p: &mut Player, mobs: &mut Vec<Mob>)
    ensures
        (*final(p), final(mobs)@) == auto_runs(*old(p), old(mobs)@),
        final(mobs)@.len() == old(mobs)@.len(),
{
    proof {
        reveal(auto_runs);
    }
    let before: Player = *p;
    if before.stats.discipline != Discipline::Martial {
        return;
    }
    let mask: Vec<bool> = near(mobs, before.x, MELEE_REACH_M);
    if first_marked(&mask).is_none() {
        return;
    }
    let cd: i128 = minus(before.auto_cd, TICK);
    *p = Player { auto_cd: cd, ..before };
    if cd <= 0 {
        martial_auto(p, mobs);
        let q: Player = *p;
        *p = Player { auto_cd: plus(q.auto_cd, MELEE_SWING_S), ..q };
    }
}

/// The fight after a tenth of a second: timers, then the player's choice, cast and
/// swing, then the mobs' turns, then everyone moves. A player that dies on the way
/// ends the tick there.
#[verifier::opaque]
pub open spec fn ticked(p: Player, mobs: Seq<Mob>, desired: i128) -> (Player, Seq<Mob>) {
    let p1 = refreshed(poisoned(timers_run(p)));
    let mobs1 = mobs_ticked(mobs);
    if !p1.alive {
        (p1, mobs1)
    } else {
        let cast = cast_runs(decided(p1, mobs1), mobs1);
        let auto = auto_runs(cast.0, cast.1);
        if !auto.0.alive {
            auto
        } else {
            let turns = mobs_act(auto.0, auto.1, auto.1.len());
            moved(turns.0, turns.1, desired)
        }
    }
}

/// One 0.1 s combat step. Live clock accumulates to this or calls it directly.
pub fn tick(p: &mut Player, mobs: &mut Vec<Mob>, desired_range: i128)
    ensures
        (*final(p), final(mobs)@) == ticked(*old(p), old(mobs)@, desired_range),
        final(mobs)@.len() == old(mobs)@.len(),
{
    proof {
        reveal(ticked);
    }
    run_timers(p);
    tick_mobs(mobs);
    if !p.alive {
        return;
    }
    player_ai_start(p, mobs);
    run_cast(p, mobs);
    run_auto(p, mobs);
    if !p.alive {
        return;
    }
    take_turns(p, mobs);
    move_entities(p, mobs, desired_range);
}

} // verus!
