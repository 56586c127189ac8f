//! What a hostile makes of the world: perception, flight, pursuit, endurance and the
//! way home. Where it stands is not decided here; it is told what it sees and says
//! where it wants to go.

use crate::combat::actors::{actor_before, deterministic_unit, drawn_part, ActorId, SpawnSeed};
use crate::combat::number::{
    diff_of, greater, law_rounding_is_close, least, lesser, minus, most, plus, sum_of,
};
use crate::gamedata::kinds::MobMode;
use vstd::prelude::*;

verus! {

#[derive(Clone, Copy, Debug, Eq, PartialEq, Structural)]
pub enum HostileState {
    Idle,
    Alerted,
    Pursuing,
    Fleeing,
    Attacking,
    Leashing,
    Dead,
}

impl HostileState {
    /// Neither idle nor dead.
    pub open spec fn engaged(self) -> bool {
        self != HostileState::Idle && self != HostileState::Dead
    }

    pub fn is_engaged(self) -> (r: bool)
        ensures
            r == self.engaged(),
    {
        match self {
            HostileState::Alerted
            | HostileState::Pursuing
            | HostileState::Fleeing
            | HostileState::Attacking
            | HostileState::Leashing => true,
            HostileState::Idle | HostileState::Dead => false,
        }
    }
}

/// A hostile looks around once a second.
pub const DETECTION_INTERVAL_S: i128 = 1_152_921_504_606_846_976;

/// It stays aware of what it saw for three seconds.
pub const AWARENESS_PERSIST_S: i128 = 3_458_764_513_820_540_928;

/// What a hostile has in mind.
#[derive(Clone, Copy, Debug, PartialEq, Eq, Structural)]
pub struct Mind {
    pub state: HostileState,
    pub mode: MobMode,
    pub target: Option<ActorId>,
    pub provoked_by: Option<ActorId>,
    pub flee_threat: Option<ActorId>,
    pub spawn_seed: SpawnSeed,
    /// How many draws it made looking around.
    pub detection_check: u64,
    pub detection_left_s: i128,
    pub awareness_s: i128,
    pub endurance_s: i128,
    pub endurance_max_s: i128,
}

/// Someone a hostile may see.
#[derive(Clone, Copy, Debug, PartialEq, Eq, Structural)]
pub struct Sighting {
    pub id: ActorId,
    pub mode: MobMode,
    pub alive: bool,
    /// Of a faction hostile to the observer's, neither of the two neutral.
    pub hostile: bool,
    /// The rank of the distance: nearer ones have smaller ranks.
    pub distance_rank: u64,
    /// The chance to be noticed: draws below it succeed, in parts of 2^53.
    pub chance: u64,
    /// Not on the same spot as the observer.
    pub apart: bool,
    /// Within the range of the action the observer closes in for.
    pub in_reach: bool,
}

/// What a hostile knows on its turn.
pub struct Senses<'a> {
    pub alive: bool,
    pub can_move: bool,
    /// Farther from home than the leash.
    pub beyond_leash: bool,
    pub at_home: bool,
    /// It has an action to close in for.
    pub has_action: bool,
    /// Everyone but itself; the player among them.
    pub others: &'a [Sighting],
}

/// Where a hostile goes.
#[derive(Clone, Copy, Debug, PartialEq, Eq, Structural)]
pub enum Step {
    /// Its turn is over.
    Rest,
    /// It stays where it is and catches its breath.
    Hold,
    /// It is put on its home spot.
    SnapHome,
    ReturnHome,
    Flee(ActorId),
    Chase(ActorId),
}

/// Whether someone can be located: alive and hostile.
pub open spec fn locatable(s: Sighting) -> bool {
    s.alive && s.hostile
}

/// The first of `others` from `from` on who has an identity and can be located.
pub open spec fn located(others: Seq<Sighting>, id: ActorId, from: int) -> Option<Sighting>
    decreases others.len() - from,
{
    if from < 0 || from >= others.len() {
        None
    } else if others[from].id == id && locatable(others[from]) {
        Some(others[from])
    } else {
        located(others, id, from + 1)
    }
}

fn locate(others: &[Sighting], id: ActorId) -> (r: Option<Sighting>)
    ensures
        r == located(others@, id, 0),
{
    let mut i: usize = 0;
    while i < others.len()
        invariant
            i <= others@.len(),
            located(others@, id, 0) == located(others@, id, i as int),
        decreases others@.len() - i,
    {
        let s: Sighting = others[i];
        if s.id == id && s.alive && s.hostile {
            return Some(s);
        }
        i += 1;
    }
    None
}

/// Whether `a` is looked at before `b`: nearer, or as near with the smaller identity.
pub open spec fn looked_at_first(a: Sighting, b: Sighting) -> bool {
    a.distance_rank < b.distance_rank || (a.distance_rank == b.distance_rank && actor_before(
        a.id,
        b.id,
    ))
}

/// A row of sightings after one more took its place.
pub open spec fn row_with(row: Seq<Sighting>, s: Sighting) -> Seq<Sighting>
    decreases row.len(),
{
    if row.len() == 0 || !looked_at_first(s, row.last()) {
        row.push(s)
    } else {
        row_with(row.drop_last(), s).push(row.last())
    }
}

/// Whether an observer heeds a sighting: alive, hostile, and one of the two active.
pub open spec fn heeded(mode: MobMode, s: Sighting) -> bool {
    locatable(s) && (mode == MobMode::Active || s.mode == MobMode::Active)
}

/// Those of the first `n` others an observer heeds, in the order it looks at them.
pub open spec fn row_of(mode: MobMode, others: Seq<Sighting>, n: nat) -> Seq<Sighting>
    decreases n,
{
    if n == 0 {
        Seq::empty()
    } else {
        let rest = row_of(mode, others, (n - 1) as nat);
        if heeded(mode, others[n - 1]) {
            row_with(rest, others[n - 1])
        } else {
            rest
        }
    }
}

proof fn lemma_row_with(row: Seq<Sighting>, s: Sighting, at: int)
    requires
        0 <= at <= row.len(),
        at == 0 || !looked_at_first(s, row[at - 1]),
        forall|k: int| at <= k < row.len() ==> looked_at_first(s, #[trigger] row[k]),
    ensures
        row_with(row, s) == row.insert(at, s),
    decreases row.len(),
{
    if at < row.len() {
        let rest = row.drop_last();
        assert forall|k: int| at <= k < rest.len() implies looked_at_first(
            s,
            #[trigger] rest[k],
        ) by {
            assert(rest[k] == row[k]);
        }
        assert(at > 0 ==> rest[at - 1] == row[at - 1]);
        lemma_row_with(rest, s, at);
        assert(looked_at_first(s, row[row.len() - 1]));
        assert(row_with(row, s) =~= row.insert(at, s));
    } else {
        assert(row_with(row, s) =~= row.insert(at, s));
    }
}

fn first_look(a: Sighting, b: Sighting) -> (r: bool)
    ensures
        r == looked_at_first(a, b),
{
    a.distance_rank < b.distance_rank || (a.distance_rank == b.distance_rank && a.id.before(b.id))
}

fn candidates(mode: MobMode, others: &[Sighting]) -> (row: Vec<Sighting>)
    ensures
        row@ == row_of(mode, others@, others@.len()),
{
    let mut row: Vec<Sighting> = Vec::new();
    let mut i: usize = 0;
    while i < others.len()
        invariant
            i <= others@.len(),
            row@ == row_of(mode, others@, i as nat),
        decreases others@.len() - i,
    {
        let s: Sighting = others[i];
        if s.alive && s.hostile && (mode == MobMode::Active || s.mode == MobMode::Active) {
            let mut at: usize = row.len();
            while at > 0 && first_look(s, row[at - 1])
                invariant
                    at <= row@.len(),
                    forall|k: int| at <= k < row@.len() ==> looked_at_first(s, #[trigger] row@[k]),
                decreases at,
            {
                at -= 1;
            }
            proof {
                lemma_row_with(row@, s, at as int);
            }
            row.insert(at, s);
        }
        i += 1;
    }
    row
}

/// The first of a row from `from` on who is noticed, one draw each.
pub open spec fn noticed(seed: SpawnSeed, check: u64, row: Seq<Sighting>, from: int) -> Option<int>
    decreases row.len() - from,
{
    if from < 0 || from >= row.len() {
        None
    } else if drawn_part(seed, (2 + check + from) as u64) < row[from].chance {
        Some(from)
    } else {
        noticed(seed, check, row, from + 1)
    }
}

/// How many draws looking at a row takes.
pub open spec fn draws(seen: Option<int>, row: Seq<Sighting>) -> int {
    match seen {
        Some(i) => i + 1,
        None => row.len() as int,
    }
}

/// What noticing someone does to a mind: an active hostile goes after them; a passive
/// one flees from an active one unless it has been provoked.
pub open spec fn alarmed(m: Mind, s: Sighting) -> Mind {
    match m.mode {
        MobMode::Active => Mind {
            awareness_s: AWARENESS_PERSIST_S,
            target: Some(s.id),
            flee_threat: None,
            state: HostileState::Alerted,
            ..m
        },
        MobMode::Passive => if s.mode == MobMode::Active && m.provoked_by is None {
            Mind {
                awareness_s: AWARENESS_PERSIST_S,
                flee_threat: Some(s.id),
                target: None,
                state: HostileState::Fleeing,
                ..m
            }
        } else {
            Mind { awareness_s: AWARENESS_PERSIST_S, ..m }
        },
    }
}

/// A mind after it looked around.
pub open spec fn looked_around(m: Mind, others: Seq<Sighting>) -> Mind {
    let row = row_of(m.mode, others, others.len());
    let seen = noticed(m.spawn_seed, m.detection_check, row, 0);
    let after = Mind {
        detection_check: (m.detection_check + draws(seen, row)) as u64,
        ..m
    };
    match seen {
        Some(i) => alarmed(after, row[i]),
        None => after,
    }
}

proof fn lemma_row_len(mode: MobMode, others: Seq<Sighting>, n: nat)
    requires
        n <= others.len(),
    ensures
        row_of(mode, others, n).len() <= n,
    decreases n,
{
    if n > 0 {
        lemma_row_len(mode, others, (n - 1) as nat);
        lemma_row_with_len(row_of(mode, others, (n - 1) as nat), others[n - 1]);
    }
}

proof fn lemma_row_with_len(row: Seq<Sighting>, s: Sighting)
    ensures
        row_with(row, s).len() == row.len() + 1,
    decreases row.len(),
{
    if row.len() > 0 && looked_at_first(s, row.last()) {
        lemma_row_with_len(row.drop_last(), s);
    }
}

fn look_around(m: Mind, others: &[Sighting]) -> (r: Mind)
    requires
        m.detection_check + others@.len() + 2 <= u64::MAX,
    ensures
        r == looked_around(m, others@),
{
    let row: Vec<Sighting> = candidates(m.mode, others);
    let n: usize = row.len();
    proof {
        lemma_row_len(m.mode, others@, others@.len());
    }
    let mut i: usize = 0;
    while i < n
        invariant
            i <= n,
            n == row@.len(),
            n <= others@.len(),
            m.detection_check + others@.len() + 2 <= u64::MAX,
            row@ == row_of(m.mode, others@, others@.len()),
            noticed(m.spawn_seed, m.detection_check, row@, 0) == noticed(
                m.spawn_seed,
                m.detection_check,
                row@,
                i as int,
            ),
        decreases n - i,
    {
        let draw: u64 = deterministic_unit(m.spawn_seed, 2 + m.detection_check + i as u64);
        if draw < row[i].chance {
            let s: Sighting = row[i];
            let after: Mind = Mind { detection_check: m.detection_check + i as u64 + 1, ..m };
            return match m.mode {
                MobMode::Active => Mind {
                    awareness_s: AWARENESS_PERSIST_S,
                    target: Some(s.id),
                    flee_threat: None,
                    state: HostileState::Alerted,
                    ..after
                },
                MobMode::Passive => if s.mode == MobMode::Active && m.provoked_by.is_none() {
                    Mind {
                        awareness_s: AWARENESS_PERSIST_S,
                        flee_threat: Some(s.id),
                        target: None,
                        state: HostileState::Fleeing,
                        ..after
                    }
                } else {
                    Mind { awareness_s: AWARENESS_PERSIST_S, ..after }
                },
            };
        }
        i += 1;
    }
    Mind { detection_check: m.detection_check + n as u64, ..m }
}

/// The farthest back from which intervals of a second are counted: 2^53 seconds, beyond
/// which a second more is lost to rounding.
pub const FARTHEST_BACK_S: i128 = -10_384_593_717_069_655_257_060_992_658_440_192;

/// An interval later is later.
pub proof fn law_intervals_pass(left: i128)
    requires
        FARTHEST_BACK_S <= left <= 0,
    ensures
        sum_of(left, DETECTION_INTERVAL_S) > left,
{
    law_rounding_is_close(left + DETECTION_INTERVAL_S);
}

/// Whole intervals added until a look is ahead again.
pub open spec fn next_look(left: i128) -> i128
    decreases
            (if left > 0 {
                0
            } else {
                1 - left
            }),
{
    if left > 0 || left < FARTHEST_BACK_S {
        left
    } else {
        proof {
            law_intervals_pass(left);
        }
        next_look(sum_of(left, DETECTION_INTERVAL_S))
    }
}

fn until_next_look(start: i128) -> (r: i128)
    requires
        start >= FARTHEST_BACK_S,
    ensures
        r == next_look(start),
        r > 0,
{
    let mut left: i128 = start;
    while left <= 0
        invariant
            left >= FARTHEST_BACK_S,
            next_look(start) == next_look(left),
        decreases (if left > 0 {
            0
        } else {
            1 - left
        }),
    {
        proof {
            law_intervals_pass(left);
        }
        left = plus(left, DETECTION_INTERVAL_S);
    }
    left
}

/// A living hostile away from its leash, after time passed and it may have looked
/// around.
pub open spec fn watched(m: Mind, others: Seq<Sighting>, dt: i128) -> Mind {
    let left = diff_of(m.detection_left_s, dt) as i128;
    let waited = Mind {
        awareness_s: greater(diff_of(m.awareness_s, dt) as i128, 0),
        detection_left_s: if left <= 0 {
            next_look(left)
        } else {
            left
        },
        ..m
    };
    let seen = if left <= 0 {
        looked_around(waited, others)
    } else {
        waited
    };
    if seen.awareness_s <= 0 && seen.provoked_by is None {
        Mind { target: None, flee_threat: None, state: HostileState::Idle, ..seen }
    } else {
        seen
    }
}

/// Where a mind goes from what it has in mind.
pub open spec fn decided_step(
    m: Mind,
    others: Seq<Sighting>,
    can_move: bool,
    has_action: bool,
) -> (Mind, Step) {
    match m.state {
        HostileState::Fleeing => {
            let threat = match m.flee_threat {
                Some(id) => located(others, id, 0),
                None => None,
            };
            match threat {
                None => (
                    Mind { flee_threat: None, state: HostileState::Idle, ..m },
                    Step::Rest,
                ),
                Some(s) => (
                    m,
                    if can_move && s.apart {
                        Step::Flee(s.id)
                    } else {
                        Step::Hold
                    },
                ),
            }
        },
        HostileState::Alerted | HostileState::Pursuing | HostileState::Attacking => {
            let prey = match m.target {
                Some(id) => located(others, id, 0),
                None => None,
            };
            match prey {
                None => (
                    Mind { target: None, provoked_by: None, state: HostileState::Idle, ..m },
                    Step::Rest,
                ),
                Some(s) => if !has_action {
                    (Mind { state: HostileState::Attacking, ..m }, Step::Rest)
                } else if s.in_reach {
                    (Mind { state: HostileState::Attacking, ..m }, Step::Hold)
                } else if can_move {
                    (Mind { state: HostileState::Pursuing, ..m }, Step::Chase(s.id))
                } else {
                    (m, Step::Hold)
                },
            }
        },
        _ => (m, Step::Hold),
    }
}

/// What a hostile has in mind after its turn, and where it goes.
pub open spec fn thought(
    m: Mind,
    alive: bool,
    can_move: bool,
    beyond_leash: bool,
    at_home: bool,
    has_action: bool,
    others: Seq<Sighting>,
    dt: i128,
) -> (Mind, Step) {
    if !alive {
        (
            Mind { state: HostileState::Dead, target: None, flee_threat: None, ..m },
            Step::Rest,
        )
    } else {
        let n = if beyond_leash {
            Mind {
                state: HostileState::Leashing,
                target: None,
                flee_threat: None,
                awareness_s: 0,
                ..m
            }
        } else {
            m
        };
        if n.state == HostileState::Leashing {
            let breath = lesser(sum_of(n.endurance_s, dt) as i128, n.endurance_max_s);
            if at_home {
                (
                    Mind {
                        endurance_s: breath,
                        provoked_by: None,
                        state: HostileState::Idle,
                        ..n
                    },
                    Step::SnapHome,
                )
            } else {
                (
                    Mind { endurance_s: breath, ..n },
                    if can_move {
                        Step::ReturnHome
                    } else {
                        Step::Rest
                    },
                )
            }
        } else {
            decided_step(watched(n, others, dt), others, can_move, has_action)
        }
    }
}

fn watch(m: Mind, others: &[Sighting], dt: i128) -> (r: Mind)
    requires
        m.detection_check + others@.len() + 2 <= u64::MAX,
        diff_of(m.detection_left_s, dt) >= FARTHEST_BACK_S,
    ensures
        r == watched(m, others@, dt),
{
    let left: i128 = minus(m.detection_left_s, dt);
    let aware: i128 = most(minus(m.awareness_s, dt), 0);
    let waited: Mind = Mind {
        awareness_s: aware,
        detection_left_s: if left <= 0 {
            until_next_look(left)
        } else {
            left
        },
        ..m
    };
    let seen: Mind = if left <= 0 {
        look_around(waited, others)
    } else {
        waited
    };
    if seen.awareness_s <= 0 && seen.provoked_by.is_none() {
        Mind { target: None, flee_threat: None, state: HostileState::Idle, ..seen }
    } else {
        seen
    }
}

fn decide_step(m: Mind, others: &[Sighting], can_move: bool, has_action: bool) -> (r: (Mind, Step))
    ensures
        r == decided_step(m, others@, can_move, has_action),
{
    match m.state {
        HostileState::Fleeing => {
            let threat: Option<Sighting> = match m.flee_threat {
                Some(id) => locate(others, id),
                None => None,
            };
            match threat {
                None => (
                    Mind { flee_threat: None, state: HostileState::Idle, ..m },
                    Step::Rest,
                ),
                Some(s) => if can_move && s.apart {
                    (m, Step::Flee(s.id))
                } else {
                    (m, Step::Hold)
                },
            }
        },
        HostileState::Alerted | HostileState::Pursuing | HostileState::Attacking => {
            let prey: Option<Sighting> = match m.target {
                Some(id) => locate(others, id),
                None => None,
            };
            match prey {
                None => (
                    Mind { target: None, provoked_by: None, state: HostileState::Idle, ..m },
                    Step::Rest,
                ),
                Some(s) => if !has_action {
                    (Mind { state: HostileState::Attacking, ..m }, Step::Rest)
                } else if s.in_reach {
                    (Mind { state: HostileState::Attacking, ..m }, Step::Hold)
                } else if can_move {
                    (Mind { state: HostileState::Pursuing, ..m }, Step::Chase(s.id))
                } else {
                    (m, Step::Hold)
                },
            }
        },
        HostileState::Idle | HostileState::Leashing | HostileState::Dead => (m, Step::Hold),
    }
}

impl Mind {
    /// A mind that has nothing in it yet. The first look is due after a drawn part of
    /// a second.
    pub open spec fn fresh(mode: MobMode, seed: SpawnSeed, endurance: i128) -> Mind {
        Mind {
            state: HostileState::Idle,
            mode,
            target: None,
            provoked_by: None,
            flee_threat: None,
            spawn_seed: seed,
            detection_check: 0,
            detection_left_s: (drawn_part(seed, 1) * 128) as i128,
            awareness_s: 0,
            endurance_s: endurance,
            endurance_max_s: endurance,
        }
    }

    pub fn new(mode: MobMode, seed: SpawnSeed, endurance: i128) -> (r: Self)
        ensures
            r == Mind::fresh(mode, seed, endurance),
    {
        let first: u64 = deterministic_unit(seed, 1);
        Mind {
            state: HostileState::Idle,
            mode,
            target: None,
            provoked_by: None,
            flee_threat: None,
            spawn_seed: seed,
            detection_check: 0,
            detection_left_s: first as i128 * 128,
            awareness_s: 0,
            endurance_s: endurance,
            endurance_max_s: endurance,
        }
    }

    /// A turn of `dt` seconds: what it has in mind now, and where it goes.
    pub fn think(&mut self, s: &Senses, dt: i128) -> (r: Step)
        requires
            old(self).detection_check + s.others@.len() + 2 <= u64::MAX,
            diff_of(old(self).detection_left_s, dt) >= FARTHEST_BACK_S,
        ensures
            (*final(self), r) == thought(
                *old(self),
                s.alive,
                s.can_move,
                s.beyond_leash,
                s.at_home,
                s.has_action,
                s.others@,
                dt,
            ),
    {
        let m: Mind = *self;
        if !s.alive {
            *self = Mind { state: HostileState::Dead, target: None, flee_threat: None, ..m };
            return Step::Rest;
        }
        let n: Mind = if s.beyond_leash {
            Mind {
                state: HostileState::Leashing,
                target: None,
                flee_threat: None,
                awareness_s: 0,
                ..m
            }
        } else {
            m
        };
        if n.state == HostileState::Leashing {
            let breath: i128 = least(plus(n.endurance_s, dt), n.endurance_max_s);
            if s.at_home {
                *self = Mind {
                    endurance_s: breath,
                    provoked_by: None,
                    state: HostileState::Idle,
                    ..n
                };
                return Step::SnapHome;
            }
            *self = Mind { endurance_s: breath, ..n };
            return if s.can_move {
                Step::ReturnHome
            } else {
                Step::Rest
            };
        }
        let w: Mind = watch(n, s.others, dt);
        let out: (Mind, Step) = decide_step(w, s.others, s.can_move, s.has_action);
        *self = out.0;
        out.1
    }

    /// The endurance after a turn that was run or rested.
    pub open spec fn breathed(self, ran: bool, dt: i128) -> Mind {
        Mind {
            endurance_s: if ran {
                greater(diff_of(self.endurance_s, dt) as i128, 0)
            } else {
                lesser(sum_of(self.endurance_s, dt) as i128, self.endurance_max_s)
            },
            ..self
        }
    }

    /// Ends a turn on which it held, fled or chased: running tires, anything else
    /// restores.
    pub fn breathe(&mut self, ran: bool, dt: i128)
        ensures
            *final(self) == old(self).breathed(ran, dt),
    {
        let m: Mind = *self;
        let endurance_s: i128 = if ran {
            most(minus(m.endurance_s, dt), 0)
        } else {
            least(plus(m.endurance_s, dt), m.endurance_max_s)
        };
        *self = Mind { endurance_s, ..m };
    }

    /// A mind that was attacked.
    pub open spec fn provoked(self, source: ActorId) -> Mind {
        Mind {
            flee_threat: None,
            provoked_by: Some(source),
            target: Some(source),
            awareness_s: AWARENESS_PERSIST_S,
            state: HostileState::Alerted,
            ..self
        }
    }

    /// Turns against whoever attacked.
    pub fn set_retaliation(&mut self, source: ActorId)
        ensures
            *final(self) == old(self).provoked(source),
    {
        let m: Mind = *self;
        *self = Mind {
            flee_threat: None,
            provoked_by: Some(source),
            target: Some(source),
            awareness_s: AWARENESS_PERSIST_S,
            state: HostileState::Alerted,
            ..m
        };
    }

    /// A mind after an action of `source` was carried out: the living turn against
    /// its author unless it is themselves, the dead are dead.
    pub open spec fn reduced(self, me: ActorId, source: ActorId, alive: bool) -> Mind {
        if !alive {
            Mind { state: HostileState::Dead, ..self }
        } else if source != me {
            self.provoked(source)
        } else {
            self
        }
    }

    pub fn reduce(&mut self, me: ActorId, source: ActorId, alive: bool)
        ensures
            *final(self) == old(self).reduced(me, source, alive),
    {
        if alive && source != me {
            self.set_retaliation(source);
        }
        if !alive {
            let m: Mind = *self;
            *self = Mind { state: HostileState::Dead, ..m };
        }
    }
}

/// A hostile beyond its leash gives up whatever it was after and turns home, whatever
/// it sees.
pub proof fn law_leash_beats_everything(
    m: Mind,
    can_move: bool,
    has_action: bool,
    others: Seq<Sighting>,
    dt: i128,
)
    ensures
        ({
            let out = thought(m, true, can_move, true, false, has_action, others, dt);
            &&& out.0.state == HostileState::Leashing
            &&& out.0.target is None
            &&& out.0.flee_threat is None
            &&& out.1 == if can_move {
                Step::ReturnHome
            } else {
                Step::Rest
            }
        }),
{
}

/// A passive hostile that was provoked does not flee: what it sees changes neither its
/// target nor its state.
pub proof fn law_provoked_prey_stands(m: Mind, s: Sighting)
    requires
        m.mode == MobMode::Passive,
        m.provoked_by is Some,
    ensures
        alarmed(m, s).target == m.target,
        alarmed(m, s).state == m.state,
        alarmed(m, s).flee_threat == m.flee_threat,
{
}

/// The dead want nothing and go nowhere.
pub proof fn law_dead_stay_put(
    m: Mind,
    can_move: bool,
    beyond: bool,
    home: bool,
    has_action: bool,
    others: Seq<Sighting>,
    dt: i128,
)
    ensures
        ({
            let out = thought(m, false, can_move, beyond, home, has_action, others, dt);
            out.0.state == HostileState::Dead && out.0.target is None && out.1 == Step::Rest
        }),
{
}

/// A hostile only chases whom it can locate, and only while it can move and they are
/// out of its reach.
pub proof fn law_chase_has_reason(
    m: Mind,
    others: Seq<Sighting>,
    can_move: bool,
    has_action: bool,
    id: ActorId,
)
    requires
        decided_step(m, others, can_move, has_action).1 == Step::Chase(id),
    ensures
        can_move,
        has_action,
        m.target is Some,
        located(others, m.target->0, 0) is Some,
        located(others, m.target->0, 0)->0.id == id,
        !located(others, m.target->0, 0)->0.in_reach,
{
}

} // verus!
