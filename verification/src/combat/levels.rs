//! How experience turns into levels, and the road from level 1 to 10.

use crate::combat::sheets::{dungeon_xp, dungeon_xp_of, xp_step, xp_to_next, DungeonXp};
use vstd::prelude::*;

verus! {

/// A level and the experience gathered in it.
#[derive(Clone, Copy, Debug, PartialEq, Eq, Structural)]
pub struct Progress {
    pub level: i32,
    pub xp_into: i32,
}

/// Progress below level 10 that is short of the next level.
pub open spec fn on_the_way(p: Progress) -> bool {
    &&& 1 <= p.level <= 10
    &&& 0 <= p.xp_into
    &&& p.level < 10 ==> p.xp_into < xp_step(p.level as int)->0
    &&& p.level == 10 ==> p.xp_into == 0
}

/// Progress after `left` more experience: what fills a level moves up, nothing is
/// kept at level 10.
pub open spec fn granted(p: Progress, left: int) -> Progress
    decreases 10 - p.level, left,
{
    if p.level >= 10 || left <= 0 || !on_the_way(p) {
        p
    } else {
        let room = xp_step(p.level as int)->0 - p.xp_into;
        if left >= room {
            granted(Progress { level: (p.level + 1) as i32, xp_into: 0 }, left - room)
        } else {
            Progress { level: p.level, xp_into: (p.xp_into + left) as i32 }
        }
    }
}

/// The experience behind a progress.
pub open spec fn earned(p: Progress) -> int {
    p.xp_into + (if p.level <= 1 {
        0int
    } else if p.level == 2 {
        200
    } else if p.level == 3 {
        450
    } else if p.level == 4 {
        750
    } else if p.level == 5 {
        1300
    } else if p.level == 6 {
        2000
    } else if p.level == 7 {
        2850
    } else if p.level == 8 {
        3850
    } else if p.level == 9 {
        5050
    } else {
        6550
    })
}

/// Experience is neither lost nor made up on the way: what is earned grows by
/// exactly what was granted, up to the 6550 of level 10.
pub proof fn law_grant_adds_up(p: Progress, left: int)
    requires
        on_the_way(p),
        left >= 0,
    ensures
        on_the_way(granted(p, left)),
        earned(granted(p, left)) == if earned(p) + left > 6550 {
            6550
        } else {
            earned(p) + left
        },
    decreases 10 - p.level, left,
{
    if p.level < 10 && left > 0 {
        let room = xp_step(p.level as int)->0 - p.xp_into;
        if left >= room {
            law_grant_adds_up(Progress { level: (p.level + 1) as i32, xp_into: 0 }, left - room);
        }
    }
}

/// Adds experience.
pub fn grant_xp(p: &mut Progress, amount: i32)
    requires
        on_the_way(*old(p)),
    ensures
        *final(p) == granted(*old(p), amount as int),
        on_the_way(*final(p)),
{
    let ghost start = *p;
    let mut left: i32 = amount;
    proof {
        if amount > 0 {
            law_grant_adds_up(start, amount as int);
        }
    }
    while p.level < 10 && left > 0
        invariant
            on_the_way(*p),
            left <= amount,
            granted(*p, left as int) == granted(start, amount as int),
        decreases 10 - p.level, left,
    {
        let need: i32 = match xp_to_next(p.level) {
            Some(need) => need,
            None => 0,
        };
        let room: i32 = need - p.xp_into;
        let take: i32 = if room < left {
            room
        } else {
            left
        };
        p.xp_into = p.xp_into + take;
        left = left - take;
        if p.xp_into >= need {
            p.level = p.level + 1;
            p.xp_into = 0;
        }
    }
}

/// A dungeon cleared on the way up.
#[derive(Clone, Copy, Debug, PartialEq, Eq, Structural)]
pub struct LevelEvent {
    pub tier: i32,
    pub first: bool,
    pub xp: i32,
    pub minutes: i32,
    pub before: Progress,
    pub after: Progress,
    pub total_minutes: i32,
}

/// The clear of a dungeon, from a progress and the minutes played.
pub open spec fn clear_of(p: Progress, minutes: int, tier: i32, first: bool) -> LevelEvent {
    let d = dungeon_xp_of(tier, first);
    LevelEvent {
        tier,
        first,
        xp: d.total,
        minutes: d.minutes,
        before: p,
        after: granted(p, d.total as int),
        total_minutes: (minutes + d.minutes) as i32,
    }
}

/// Clears of a dungeon until `goal` is reached.
pub open spec fn repeats(p: Progress, minutes: int, tier: i32, goal: int) -> Seq<LevelEvent>
    decreases 6550 - earned(p),
    when 0 <= tier <= 2 && on_the_way(p)
    via repeats_end
{
    if p.level >= goal || p.level >= 10 {
        Seq::empty()
    } else {
        let e = clear_of(p, minutes, tier, false);
        seq![e] + repeats(e.after, e.total_minutes as int, tier, goal)
    }
}

#[via_fn]
proof fn repeats_end(p: Progress, minutes: int, tier: i32, goal: int) {
    if p.level < goal && p.level < 10 {
        law_grant_adds_up(p, dungeon_xp_of(tier, false).total as int);
    }
}

/// Where a row of clears ends.
pub open spec fn end_of(p: Progress, minutes: int, events: Seq<LevelEvent>) -> (Progress, int) {
    if events.len() == 0 {
        (p, minutes)
    } else {
        (events.last().after, events.last().total_minutes as int)
    }
}

/// A first clear of a dungeon and then repeats until `goal` is reached.
pub open spec fn tier_run(p: Progress, minutes: int, tier: i32, goal: int) -> Seq<LevelEvent> {
    let e = clear_of(p, minutes, tier, true);
    seq![e] + repeats(e.after, e.total_minutes as int, tier, goal)
}

/// The road up: the first dungeon to level 4, the second to 8, the third to 10.
pub open spec fn road_up() -> Seq<LevelEvent> {
    let start = Progress { level: 1, xp_into: 0 };
    let d1 = tier_run(start, 0, 0, 4);
    let mid = end_of(start, 0, d1);
    let d2 = tier_run(mid.0, mid.1, 1, 8);
    let high = end_of(mid.0, mid.1, d2);
    d1 + d2 + tier_run(high.0, high.1, 2, 10)
}

fn clear(events: &mut Vec<LevelEvent>, p: &mut Progress, minutes: &mut i32, tier: i32, first: bool)
    requires
        on_the_way(*old(p)),
        0 <= tier <= 2,
        0 <= *old(minutes) <= 1_000_000,
    ensures
        on_the_way(*final(p)),
        final(events)@ == old(events)@.push(clear_of(*old(p), *old(minutes) as int, tier, first)),
        *final(p) == clear_of(*old(p), *old(minutes) as int, tier, first).after,
        *final(minutes) == clear_of(*old(p), *old(minutes) as int, tier, first).total_minutes,
        *final(minutes) == *old(minutes) + dungeon_xp_of(tier, first).minutes,
        earned(*old(p)) < 6550 ==> earned(*final(p)) > earned(*old(p)),
{
    let d: DungeonXp = dungeon_xp(tier, first);
    let before: Progress = *p;
    proof {
        law_grant_adds_up(before, d.total as int);
    }
    grant_xp(p, d.total);
    *minutes = *minutes + d.minutes;
    events.push(
        LevelEvent {
            tier,
            first,
            xp: d.total,
            minutes: d.minutes,
            before,
            after: *p,
            total_minutes: *minutes,
        },
    );
}

fn run_tier(events: &mut Vec<LevelEvent>, p: &mut Progress, minutes: &mut i32, tier: i32, goal: i32)
    requires
        on_the_way(*old(p)),
        0 <= tier <= 2,
        goal <= 10,
        0 <= *old(minutes) <= 300_000,
    ensures
        on_the_way(*final(p)),
        final(events)@ == old(events)@ + tier_run(*old(p), *old(minutes) as int, tier, goal as int),
        (*final(p), *final(minutes) as int) == end_of(
            *old(p),
            *old(minutes) as int,
            tier_run(*old(p), *old(minutes) as int, tier, goal as int),
        ),
        final(p).level >= goal,
        *old(minutes) <= *final(minutes) <= *old(minutes) + 100_000,
{
    let ghost from = *p;
    let ghost at = *minutes as int;
    let ghost seen = events@;
    clear(events, p, minutes, tier, true);
    let ghost first = clear_of(from, at, tier, true);
    let ghost mut done = seq![first];
    assert(events@ =~= seen + done);
    while p.level < goal
        invariant
            on_the_way(*p),
            0 <= tier <= 2,
            goal <= 10,
            0 <= at <= 300_000,
            at <= *minutes <= at + 12 + 12 * (earned(*p)),
            earned(*p) <= 6550 + 1500,
            events@ == seen + done,
            done.len() > 0,
            *p == done.last().after,
            *minutes == done.last().total_minutes,
            tier_run(from, at, tier, goal as int) == done + repeats(
                *p,
                *minutes as int,
                tier,
                goal as int,
            ),
        decreases 6550 - earned(*p),
    {
        let ghost e = clear_of(*p, *minutes as int, tier, false);
        let ghost rest = repeats(e.after, e.total_minutes as int, tier, goal as int);
        clear(events, p, minutes, tier, false);
        proof {
            assert(done + (seq![e] + rest) =~= (done + seq![e]) + rest);
            done = done + seq![e];
            assert(events@ =~= seen + done);
        }
    }
    proof {
        assert(done + Seq::<LevelEvent>::empty() =~= done);
    }
}

/// How many of the first `n` clears were of a tier.
pub open spec fn clears_upto(events: Seq<LevelEvent>, tier: i32, n: nat) -> int
    decreases n,
{
    if n == 0 {
        0
    } else {
        clears_upto(events, tier, (n - 1) as nat) + if events[n - 1].tier == tier {
            1int
        } else {
            0
        }
    }
}

/// The road from level 1 to 10, clear by clear.
pub fn leveling_path() -> (events: Vec<LevelEvent>)
    ensures
        events@ == road_up(),
        events@.len() > 0,
        events@.last().after.level == 10,
{
    let mut events: Vec<LevelEvent> = Vec::new();
    let mut p: Progress = Progress { level: 1, xp_into: 0 };
    let mut minutes: i32 = 0;
    run_tier(&mut events, &mut p, &mut minutes, 0, 4);
    run_tier(&mut events, &mut p, &mut minutes, 1, 8);
    run_tier(&mut events, &mut p, &mut minutes, 2, 10);
    assert(events@ =~= road_up());
    events
}

/// The road up is as long as its clears say: seven of the first dungeon, nine of
/// the second, three of the third, 127 minutes in all, which lies between 90 and
/// 150.
pub proof fn law_road_up_takes_127_minutes()
    ensures
        road_up().len() == 19,
        road_up().last().total_minutes == 127,
        90 <= road_up().last().total_minutes <= 150,
        road_up().last().after.level == 10,
{
    reveal_with_fuel(granted, 4);
    assert(repeats(Progress { level: 4, xp_into: 100 }, 28, 0, 4).len() == 0);
    assert(granted(Progress { level: 3, xp_into: 290 }, 110) == (Progress { level: 4, xp_into: 100 }));
    let r0_6 = repeats(Progress { level: 3, xp_into: 290 }, 24, 0, 4);
    assert(r0_6.len() == 1);
    assert(r0_6.last().total_minutes == 28 && r0_6.last().after == (Progress { level: 4, xp_into: 100 }));
    assert(granted(Progress { level: 3, xp_into: 180 }, 110) == (Progress { level: 3, xp_into: 290 }));
    let r0_5 = repeats(Progress { level: 3, xp_into: 180 }, 20, 0, 4);
    assert(r0_5.len() == 2);
    assert(r0_5.last().total_minutes == 28 && r0_5.last().after == (Progress { level: 4, xp_into: 100 }));
    assert(granted(Progress { level: 3, xp_into: 70 }, 110) == (Progress { level: 3, xp_into: 180 }));
    let r0_4 = repeats(Progress { level: 3, xp_into: 70 }, 16, 0, 4);
    assert(r0_4.len() == 3);
    assert(r0_4.last().total_minutes == 28 && r0_4.last().after == (Progress { level: 4, xp_into: 100 }));
    assert(granted(Progress { level: 2, xp_into: 210 }, 110) == (Progress { level: 3, xp_into: 70 }));
    let r0_3 = repeats(Progress { level: 2, xp_into: 210 }, 12, 0, 4);
    assert(r0_3.len() == 4);
    assert(r0_3.last().total_minutes == 28 && r0_3.last().after == (Progress { level: 4, xp_into: 100 }));
    assert(granted(Progress { level: 2, xp_into: 100 }, 110) == (Progress { level: 2, xp_into: 210 }));
    let r0_2 = repeats(Progress { level: 2, xp_into: 100 }, 8, 0, 4);
    assert(r0_2.len() == 5);
    assert(r0_2.last().total_minutes == 28 && r0_2.last().after == (Progress { level: 4, xp_into: 100 }));
    assert(granted(Progress { level: 1, xp_into: 190 }, 110) == (Progress { level: 2, xp_into: 100 }));
    let r0_1 = repeats(Progress { level: 1, xp_into: 190 }, 4, 0, 4);
    assert(r0_1.len() == 6);
    assert(r0_1.last().total_minutes == 28 && r0_1.last().after == (Progress { level: 4, xp_into: 100 }));
    assert(granted(Progress { level: 1, xp_into: 0 }, 190) == (Progress { level: 1, xp_into: 190 }));
    let t0 = tier_run(Progress { level: 1, xp_into: 0 }, 0, 0, 4);
    assert(t0.len() == 7 && t0.last().total_minutes == 28 && t0.last().after == (Progress { level: 4, xp_into: 100 }));
    assert(repeats(Progress { level: 8, xp_into: 326 }, 91, 1, 8).len() == 0);
    assert(granted(Progress { level: 7, xp_into: 972 }, 354) == (Progress { level: 8, xp_into: 326 }));
    let r1_8 = repeats(Progress { level: 7, xp_into: 972 }, 84, 1, 8);
    assert(r1_8.len() == 1);
    assert(r1_8.last().total_minutes == 91 && r1_8.last().after == (Progress { level: 8, xp_into: 326 }));
    assert(granted(Progress { level: 7, xp_into: 618 }, 354) == (Progress { level: 7, xp_into: 972 }));
    let r1_7 = repeats(Progress { level: 7, xp_into: 618 }, 77, 1, 8);
    assert(r1_7.len() == 2);
    assert(r1_7.last().total_minutes == 91 && r1_7.last().after == (Progress { level: 8, xp_into: 326 }));
    assert(granted(Progress { level: 7, xp_into: 264 }, 354) == (Progress { level: 7, xp_into: 618 }));
    let r1_6 = repeats(Progress { level: 7, xp_into: 264 }, 70, 1, 8);
    assert(r1_6.len() == 3);
    assert(r1_6.last().total_minutes == 91 && r1_6.last().after == (Progress { level: 8, xp_into: 326 }));
    assert(granted(Progress { level: 6, xp_into: 760 }, 354) == (Progress { level: 7, xp_into: 264 }));
    let r1_5 = repeats(Progress { level: 6, xp_into: 760 }, 63, 1, 8);
    assert(r1_5.len() == 4);
    assert(r1_5.last().total_minutes == 91 && r1_5.last().after == (Progress { level: 8, xp_into: 326 }));
    assert(granted(Progress { level: 6, xp_into: 406 }, 354) == (Progress { level: 6, xp_into: 760 }));
    let r1_4 = repeats(Progress { level: 6, xp_into: 406 }, 56, 1, 8);
    assert(r1_4.len() == 5);
    assert(r1_4.last().total_minutes == 91 && r1_4.last().after == (Progress { level: 8, xp_into: 326 }));
    assert(granted(Progress { level: 6, xp_into: 52 }, 354) == (Progress { level: 6, xp_into: 406 }));
    let r1_3 = repeats(Progress { level: 6, xp_into: 52 }, 49, 1, 8);
    assert(r1_3.len() == 6);
    assert(r1_3.last().total_minutes == 91 && r1_3.last().after == (Progress { level: 8, xp_into: 326 }));
    assert(granted(Progress { level: 5, xp_into: 398 }, 354) == (Progress { level: 6, xp_into: 52 }));
    let r1_2 = repeats(Progress { level: 5, xp_into: 398 }, 42, 1, 8);
    assert(r1_2.len() == 7);
    assert(r1_2.last().total_minutes == 91 && r1_2.last().after == (Progress { level: 8, xp_into: 326 }));
    assert(granted(Progress { level: 5, xp_into: 44 }, 354) == (Progress { level: 5, xp_into: 398 }));
    let r1_1 = repeats(Progress { level: 5, xp_into: 44 }, 35, 1, 8);
    assert(r1_1.len() == 8);
    assert(r1_1.last().total_minutes == 91 && r1_1.last().after == (Progress { level: 8, xp_into: 326 }));
    assert(granted(Progress { level: 4, xp_into: 100 }, 494) == (Progress { level: 5, xp_into: 44 }));
    let t1 = tier_run(Progress { level: 4, xp_into: 100 }, 28, 1, 8);
    assert(t1.len() == 9 && t1.last().total_minutes == 91 && t1.last().after == (Progress { level: 8, xp_into: 326 }));
    assert(repeats(Progress { level: 10, xp_into: 0 }, 127, 2, 10).len() == 0);
    assert(granted(Progress { level: 9, xp_into: 1266 }, 970) == (Progress { level: 10, xp_into: 0 }));
    let r2_2 = repeats(Progress { level: 9, xp_into: 1266 }, 115, 2, 10);
    assert(r2_2.len() == 1);
    assert(r2_2.last().total_minutes == 127 && r2_2.last().after == (Progress { level: 10, xp_into: 0 }));
    assert(granted(Progress { level: 9, xp_into: 296 }, 970) == (Progress { level: 9, xp_into: 1266 }));
    let r2_1 = repeats(Progress { level: 9, xp_into: 296 }, 103, 2, 10);
    assert(r2_1.len() == 2);
    assert(r2_1.last().total_minutes == 127 && r2_1.last().after == (Progress { level: 10, xp_into: 0 }));
    assert(granted(Progress { level: 8, xp_into: 326 }, 1170) == (Progress { level: 9, xp_into: 296 }));
    let t2 = tier_run(Progress { level: 8, xp_into: 326 }, 91, 2, 10);
    assert(t2.len() == 3 && t2.last().total_minutes == 127 && t2.last().after == (Progress { level: 10, xp_into: 0 }));
}

} // verus!
