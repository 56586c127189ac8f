//! The published fights: their setups, the rows they must land on, and the whole run.

use crate::combat::levels::{leveling_path, road_up, LevelEvent};
use crate::combat::math::{mitigated, mitigation, Discipline, START_ARROWS};
use crate::combat::number::units;
use crate::combat::sheets::{
    player_fits, player_stats, specialist, wolf_fits, wolf_of, wolf_sheet, MobKind, MobSheet, PlayerStats,
};
use crate::combat::sim::{
    judge, judged, outcome, run_fight, Band, FightReport, FightSetup, Verdict, Winner,
};
use crate::text::{starts_with, str_eq};
use vstd::prelude::*;

verus! {

/// The text of a winner.
pub open spec fn winner_name(w: Winner) -> Seq<char> {
    match w {
        Winner::Player => "player"@,
        Winner::Mobs => "mobs"@,
        Winner::Timeout => "timeout"@,
    }
}

impl Winner {
    pub fn as_str(self) -> (r: &'static str)
        ensures
            r@ == winner_name(self),
    {
        match self {
            Winner::Player => "player",
            Winner::Mobs => "mobs",
            Winner::Timeout => "timeout",
        }
    }
}

impl FightReport {
    /// The ticks a won fight took.
    pub open spec fn kill_ticks(self) -> Option<i32> {
        if self.winner == Winner::Player {
            Some(self.ticks)
        } else {
            None
        }
    }

    /// The ticks a lost or called-off fight took.
    pub open spec fn death_ticks(self) -> Option<i32> {
        if self.winner == Winner::Player {
            None
        } else {
            Some(self.ticks)
        }
    }

    pub fn time_to_kill(&self) -> (r: Option<i32>)
        ensures
            r == self.kill_ticks(),
    {
        if self.winner == Winner::Player {
            Some(self.ticks)
        } else {
            None
        }
    }

    pub fn time_to_die(&self) -> (r: Option<i32>)
        ensures
            r == self.death_ticks(),
    {
        if self.winner == Winner::Player {
            None
        } else {
            Some(self.ticks)
        }
    }
}

/// Why a fight passed or failed its band.
pub open spec fn verdict_text(v: Verdict) -> Seq<char> {
    match v {
        Verdict::Even => "even 1v1"@,
        Verdict::MustWinDuel => "player must win"@,
        Verdict::DuelTooShortOrLong => "TTK not in 8.0-14.0"@,
        Verdict::DuelTooCostly => "end HP < 40%"@,
        Verdict::OneShot => "one-shot"@,
        Verdict::WalkedOff => "0 damage walking, no Pin/Bind"@,
        Verdict::RiskyLoss => "lose (expected risky)"@,
        Verdict::RiskyWin => "win but <20% HP"@,
        Verdict::TooSafe => "too safe"@,
        Verdict::WonWithPotion => "win with potion"@,
        Verdict::Lost => "lost"@,
        Verdict::MustWin => "must WIN"@,
        Verdict::RoomTooShortOrLong => "TTK not in 20-50 (room)"@,
        Verdict::NoHealthLeft => "end HP not >0"@,
        Verdict::PaleHall => "Pale Hall room"@,
        Verdict::HeartTooShortOrLong => "TTK not in 25-45 (heart)"@,
        Verdict::HeartHealthOff => "end HP not in 20-50%"@,
        Verdict::Heart => "heart"@,
        Verdict::Won => "must WIN"@,
        Verdict::LostOrOneShot => "lost or oneshot"@,
    }
}

impl Verdict {
    pub fn reason(self) -> (r: &'static str)
        ensures
            r@ == verdict_text(self),
    {
        match self {
            Verdict::Even => "even 1v1",
            Verdict::MustWinDuel => "player must win",
            Verdict::DuelTooShortOrLong => "TTK not in 8.0-14.0",
            Verdict::DuelTooCostly => "end HP < 40%",
            Verdict::OneShot => "one-shot",
            Verdict::WalkedOff => "0 damage walking, no Pin/Bind",
            Verdict::RiskyLoss => "lose (expected risky)",
            Verdict::RiskyWin => "win but <20% HP",
            Verdict::TooSafe => "too safe",
            Verdict::WonWithPotion => "win with potion",
            Verdict::Lost => "lost",
            Verdict::MustWin => "must WIN",
            Verdict::RoomTooShortOrLong => "TTK not in 20-50 (room)",
            Verdict::NoHealthLeft => "end HP not >0",
            Verdict::PaleHall => "Pale Hall room",
            Verdict::HeartTooShortOrLong => "TTK not in 25-45 (heart)",
            Verdict::HeartHealthOff => "end HP not in 20-50%",
            Verdict::Heart => "heart",
            Verdict::Won => "must WIN",
            Verdict::LostOrOneShot => "lost or oneshot",
        }
    }
}

/// The key a band is reported under.
pub open spec fn band_key(b: Band) -> Seq<char> {
    match b {
        Band::EvenDuel => "even_1v1"@,
        Band::TwoPullNoPotion => "2pull_nopot"@,
        Band::TwoPullPotion => "2pull_pot"@,
        Band::PaleHall => "pale_hall"@,
        Band::Heart => "heart"@,
        Band::MustWin => "d1_clear"@,
    }
}

impl Band {
    pub fn key(self) -> (r: &'static str)
        ensures
            r@ == band_key(self),
    {
        match self {
            Band::EvenDuel => "even_1v1",
            Band::TwoPullNoPotion => "2pull_nopot",
            Band::TwoPullPotion => "2pull_pot",
            Band::PaleHall => "pale_hall",
            Band::Heart => "heart",
            Band::MustWin => "d1_clear",
        }
    }
}

/// A published fight.
#[derive(Clone, Copy, Debug)]
pub struct Scenario {
    pub id: &'static str,
    pub title: &'static str,
    pub setup: FightSetup,
    pub band: Band,
}

/// A fight with the starting arrows.
pub open spec fn setup_of(
    level: i32,
    discipline: Discipline,
    mob: MobKind,
    count: i32,
    mob_level: i32,
    potions: i32,
    kite: bool,
) -> FightSetup {
    FightSetup { level, discipline, mob, count, mob_level, potions, arrows: START_ARROWS, kite }
}

pub const SCENARIO_COUNT: usize = 8;

/// The published fights, in order.
pub open spec fn scenario_of(i: int) -> Scenario {
    if i == 0 {
        Scenario {
            id: "1_l1_martial_1wolf",
            title: "L1 Martial vs 1 wolf-spider",
            setup: setup_of(1, Discipline::Martial, MobKind::Wolf, 1, 1, 1, false),
            band: Band::EvenDuel,
        }
    } else if i == 1 {
        Scenario {
            id: "2_l1_martial_2wolf_nopot",
            title: "L1 Martial vs 2 wolf-spiders, no potion",
            setup: setup_of(1, Discipline::Martial, MobKind::Wolf, 2, 1, 0, false),
            band: Band::TwoPullNoPotion,
        }
    } else if i == 2 {
        Scenario {
            id: "3_l1_martial_2wolf_pot",
            title: "L1 Martial vs 2 wolf-spiders, 1 potion",
            setup: setup_of(1, Discipline::Martial, MobKind::Wolf, 2, 1, 1, false),
            band: Band::TwoPullPotion,
        }
    } else if i == 3 {
        Scenario {
            id: "4_l3_hunt_scorpion",
            title: "L3 Hunt vs 1 scorpion",
            setup: setup_of(3, Discipline::Hunt, MobKind::Scorpion, 1, 3, 1, true),
            band: Band::EvenDuel,
        }
    } else if i == 4 {
        Scenario {
            id: "5_l5_arcane_pale_hall",
            title: "L5 Arcane vs Pale Hall (4 L4 wolves)",
            setup: setup_of(5, Discipline::Arcane, MobKind::Wolf, 4, 4, 1, true),
            band: Band::PaleHall,
        }
    } else if i == 5 {
        Scenario {
            id: "6_l9_martial_line_mother",
            title: "L9 Martial vs Line-Mother",
            setup: setup_of(9, Discipline::Martial, MobKind::LineMother, 1, 9, 1, false),
            band: Band::Heart,
        }
    } else if i == 6 {
        Scenario {
            id: "7_l2_martial_blob",
            title: "L2 Martial vs 1 GreenBlob",
            setup: setup_of(2, Discipline::Martial, MobKind::GreenBlob, 1, 2, 1, false),
            band: Band::EvenDuel,
        }
    } else {
        Scenario {
            id: "s_l2_martial_d1_pot",
            title: "SANITY L2 Martial vs D1 (2 L1 wolves) + potion",
            setup: setup_of(2, Discipline::Martial, MobKind::Wolf, 2, 1, 1, false),
            band: Band::MustWin,
        }
    }
}

fn make_setup(
    level: i32,
    discipline: Discipline,
    mob: MobKind,
    count: i32,
    mob_level: i32,
    potions: i32,
    kite: bool,
) -> (r: FightSetup)
    ensures
        r == setup_of(level, discipline, mob, count, mob_level, potions, kite),
{
    FightSetup { level, discipline, mob, count, mob_level, potions, arrows: START_ARROWS, kite }
}

pub fn scenario(i: usize) -> (r: Scenario)
    requires
        i < SCENARIO_COUNT,
    ensures
        r == scenario_of(i as int),
        player_fits(r.setup.level as int),
        wolf_fits(r.setup.mob_level as int),
{
    match i {
        0 => Scenario {
            id: "1_l1_martial_1wolf",
            title: "L1 Martial vs 1 wolf-spider",
            setup: make_setup(1, Discipline::Martial, MobKind::Wolf, 1, 1, 1, false),
            band: Band::EvenDuel,
        },
        1 => Scenario {
            id: "2_l1_martial_2wolf_nopot",
            title: "L1 Martial vs 2 wolf-spiders, no potion",
            setup: make_setup(1, Discipline::Martial, MobKind::Wolf, 2, 1, 0, false),
            band: Band::TwoPullNoPotion,
        },
        2 => Scenario {
            id: "3_l1_martial_2wolf_pot",
            title: "L1 Martial vs 2 wolf-spiders, 1 potion",
            setup: make_setup(1, Discipline::Martial, MobKind::Wolf, 2, 1, 1, false),
            band: Band::TwoPullPotion,
        },
        3 => Scenario {
            id: "4_l3_hunt_scorpion",
            title: "L3 Hunt vs 1 scorpion",
            setup: make_setup(3, Discipline::Hunt, MobKind::Scorpion, 1, 3, 1, true),
            band: Band::EvenDuel,
        },
        4 => Scenario {
            id: "5_l5_arcane_pale_hall",
            title: "L5 Arcane vs Pale Hall (4 L4 wolves)",
            setup: make_setup(5, Discipline::Arcane, MobKind::Wolf, 4, 4, 1, true),
            band: Band::PaleHall,
        },
        5 => Scenario {
            id: "6_l9_martial_line_mother",
            title: "L9 Martial vs Line-Mother",
            setup: make_setup(9, Discipline::Martial, MobKind::LineMother, 1, 9, 1, false),
            band: Band::Heart,
        },
        6 => Scenario {
            id: "7_l2_martial_blob",
            title: "L2 Martial vs 1 GreenBlob",
            setup: make_setup(2, Discipline::Martial, MobKind::GreenBlob, 1, 2, 1, false),
            band: Band::EvenDuel,
        },
        _ => Scenario {
            id: "s_l2_martial_d1_pot",
            title: "SANITY L2 Martial vs D1 (2 L1 wolves) + potion",
            setup: make_setup(2, Discipline::Martial, MobKind::Wolf, 2, 1, 1, false),
            band: Band::MustWin,
        },
    }
}

/// The ids of the published fights.
pub fn scenario_ids() -> (ids: Vec<&'static str>)
    ensures
        ids@ == Seq::new(SCENARIO_COUNT as nat, |i: int| scenario_of(i).id),
{
    let mut ids: Vec<&'static str> = Vec::new();
    let mut i: usize = 0;
    while i < SCENARIO_COUNT
        invariant
            i <= SCENARIO_COUNT,
            ids@ == Seq::new(i as nat, |j: int| scenario_of(j).id),
        decreases SCENARIO_COUNT - i,
    {
        let s: Scenario = scenario(i);
        ids.push(s.id);
        i += 1;
        assert(ids@ =~= Seq::new(i as nat, |j: int| scenario_of(j).id));
    }
    ids
}

/// A published fight as it went.
#[derive(Clone, Copy, Debug)]
pub struct ScenarioRun {
    pub scenario: Scenario,
    pub report: FightReport,
    pub verdict: Verdict,
}

pub open spec fn run_of(s: Scenario) -> ScenarioRun {
    ScenarioRun { scenario: s, report: outcome(s.setup), verdict: judged(s.band, outcome(s.setup)) }
}

fn run_scenario_sc(s: Scenario) -> (r: ScenarioRun)
    requires
        player_fits(s.setup.level as int),
        wolf_fits(s.setup.mob_level as int),
    ensures
        r == run_of(s),
{
    let report: FightReport = run_fight(s.setup);
    let verdict: Verdict = judge(s.band, &report);
    ScenarioRun { scenario: s, report, verdict }
}

/// Whether a name means a scenario: its id, or the beginning of it.
pub open spec fn names(name: Seq<char>, i: int) -> bool {
    name == scenario_of(i).id@ || name.is_prefix_of(scenario_of(i).id@)
}

/// The first scenario from `from` on that a name means.
pub open spec fn scenario_named(name: Seq<char>, from: int) -> Option<int>
    decreases SCENARIO_COUNT - from,
{
    if from < 0 || from >= SCENARIO_COUNT {
        None
    } else if names(name, from) {
        Some(from)
    } else {
        scenario_named(name, from + 1)
    }
}

/// Fights the first scenario that a name means; nothing where it means none.
pub fn run_scenario(id: &str) -> (r: Option<ScenarioRun>)
    ensures
        r == match scenario_named(id@, 0) {
            Some(i) => Some(run_of(scenario_of(i))),
            None => None,
        },
{
    let mut i: usize = 0;
    while i < SCENARIO_COUNT
        invariant
            i <= SCENARIO_COUNT,
            scenario_named(id@, 0) == scenario_named(id@, i as int),
        decreases SCENARIO_COUNT - i,
    {
        let s: Scenario = scenario(i);
        if str_eq(s.id, id) || starts_with(s.id, id) {
            return Some(run_scenario_sc(s));
        }
        i += 1;
    }
    None
}

/// The first scenario.
pub fn fixture_scenario_1() -> (r: ScenarioRun)
    ensures
        r == run_of(scenario_of(0)),
{
    run_scenario_sc(scenario(0))
}

/// The first swing of four wolves against a fifth-level caster.
#[derive(Clone, Copy, Debug, PartialEq, Eq, Structural)]
pub struct Volley {
    pub hit: i32,
    pub volley: i32,
    pub hp: i32,
}

impl Volley {
    pub open spec fn survived(self) -> bool {
        self.volley < self.hp
    }

    pub fn passes(&self) -> (r: bool)
        ensures
            r == self.survived(),
    {
        self.volley < self.hp
    }
}

/// What four fourth-level wolves do to a fifth-level caster with one swing each.
pub open spec fn first_volley() -> Volley {
    let p = specialist(5, Discipline::Arcane);
    let hit = mitigated(wolf_of(4).damage as int, p.attrs.grit as int);
    Volley { hit: hit as i32, volley: (4 * hit) as i32, hp: p.hp }
}

pub fn oneshot_sanity() -> (r: Volley)
    ensures
        r == first_volley(),
        r.survived(),
{
    let p: PlayerStats = player_stats(5, Discipline::Arcane);
    let w: MobSheet = wolf_sheet(4);
    let hit: i32 = mitigation(units(w.damage), p.attrs.grit);
    Volley { hit, volley: hit * 4, hp: p.hp }
}

/// Everything the published run reports on.
pub struct FullRun {
    pub rows: Vec<ScenarioRun>,
    pub volley: Volley,
    pub road: Vec<LevelEvent>,
    pub all_pass: bool,
}

/// Whether the road to the tenth level takes 90 to 150 minutes.
pub open spec fn road_in_band(road: Seq<LevelEvent>) -> bool {
    road.len() > 0 && 90 <= road.last().total_minutes <= 150
}

/// Fights every scenario; everything passes when each verdict, the first volley and
/// the road to the tenth level do.
pub fn run_all() -> (r: FullRun)
    ensures
        r.rows@ == Seq::new(SCENARIO_COUNT as nat, |i: int| run_of(scenario_of(i))),
        r.volley == first_volley(),
        r.road@ == road_up(),
        r.all_pass == ((forall|i: int|
            0 <= i < SCENARIO_COUNT ==> (#[trigger] run_of(scenario_of(i))).verdict.passes())
            && first_volley().survived() && road_in_band(road_up())),
{
    let mut rows: Vec<ScenarioRun> = Vec::new();
    let mut good: bool = true;
    let mut i: usize = 0;
    while i < SCENARIO_COUNT
        invariant
            i <= SCENARIO_COUNT,
            rows@ == Seq::new(i as nat, |j: int| run_of(scenario_of(j))),
            good == forall|j: int|
                0 <= j < i ==> (#[trigger] run_of(scenario_of(j))).verdict.passes(),
        decreases SCENARIO_COUNT - i,
    {
        let row: ScenarioRun = run_scenario_sc(scenario(i));
        good = good && row.verdict.is_pass();
        rows.push(row);
        i += 1;
        assert(rows@ =~= Seq::new(i as nat, |j: int| run_of(scenario_of(j))));
        assert(row == run_of(scenario_of(i - 1)));
    }
    let volley: Volley = oneshot_sanity();
    let road: Vec<LevelEvent> = leveling_path();
    let last: usize = road.len() - 1;
    let in_time: bool = 90 <= road[last].total_minutes && road[last].total_minutes <= 150;
    let all_pass: bool = good && volley.passes() && in_time;
    FullRun { rows, volley, road, all_pass }
}

/// A published row: what a scenario must end on.
#[derive(Clone, Copy, Debug, PartialEq, Eq, Structural)]
pub struct PublishedRow {
    pub winner: Winner,
    pub kill_ticks: Option<i32>,
    pub death_ticks: Option<i32>,
    pub hp: i32,
    pub hp_max: i32,
}

/// The published rows, in the order of the scenarios.
pub open spec fn published_of(i: int) -> PublishedRow {
    if i == 0 {
        won(108, 55, 100)
    } else if i == 1 {
        PublishedRow {
            winner: Winner::Mobs,
            kill_ticks: None,
            death_ticks: Some(141),
            hp: 0,
            hp_max: 100,
        }
    } else if i == 2 {
        won(216, 5, 100)
    } else if i == 3 {
        won(111, 124, 124)
    } else if i == 4 {
        won(464, 148, 148)
    } else if i == 5 {
        won(324, 94, 196)
    } else if i == 6 {
        won(108, 72, 112)
    } else {
        won(198, 35, 112)
    }
}

/// A fight won after so many ticks.
pub open spec fn won(ticks: i32, hp: i32, hp_max: i32) -> PublishedRow {
    PublishedRow {
        winner: Winner::Player,
        kill_ticks: Some(ticks),
        death_ticks: None,
        hp,
        hp_max,
    }
}

fn won_row(ticks: i32, hp: i32, hp_max: i32) -> (r: PublishedRow)
    ensures
        r == won(ticks, hp, hp_max),
{
    PublishedRow {
        winner: Winner::Player,
        kill_ticks: Some(ticks),
        death_ticks: None,
        hp,
        hp_max,
    }
}

pub fn published_row(i: usize) -> (r: PublishedRow)
    requires
        i < SCENARIO_COUNT,
    ensures
        r == published_of(i as int),
{
    match i {
        0 => won_row(108, 55, 100),
        1 => PublishedRow {
            winner: Winner::Mobs,
            kill_ticks: None,
            death_ticks: Some(141),
            hp: 0,
            hp_max: 100,
        },
        2 => won_row(216, 5, 100),
        3 => won_row(111, 124, 124),
        4 => won_row(464, 148, 148),
        5 => won_row(324, 94, 196),
        6 => won_row(108, 72, 112),
        _ => won_row(198, 35, 112),
    }
}

/// How a fight may miss its published row.
#[derive(Clone, Copy, Debug, PartialEq, Eq, Structural)]
pub enum RowFault {
    Missing { row: usize },
    Winner { row: usize, got: Winner },
    KillTime { row: usize, got: Option<i32> },
    DeathTime { row: usize, got: Option<i32> },
    Health { row: usize, hp: i32, hp_max: i32 },
}

/// What a report misses of row `i`, in the order it is told.
pub open spec fn row_misses(i: usize, r: FightReport) -> Seq<RowFault> {
    let want = published_of(i as int);
    let a = if r.winner != want.winner {
        seq![RowFault::Winner { row: i, got: r.winner }]
    } else {
        seq![]
    };
    let b = if r.kill_ticks() != want.kill_ticks {
        seq![RowFault::KillTime { row: i, got: r.kill_ticks() }]
    } else {
        seq![]
    };
    let c = if r.death_ticks() != want.death_ticks {
        seq![RowFault::DeathTime { row: i, got: r.death_ticks() }]
    } else {
        seq![]
    };
    let d = if r.hp_left() != want.hp || r.player.max_hp != want.hp_max {
        seq![RowFault::Health { row: i, hp: r.hp_left() as i32, hp_max: r.player.max_hp }]
    } else {
        seq![]
    };
    a + b + c + d
}

/// The first run of row `i` from `from` on.
pub open spec fn run_for(rows: Seq<ScenarioRun>, i: int, from: int) -> Option<int>
    decreases rows.len() - from,
{
    if from < 0 || from >= rows.len() {
        None
    } else if rows[from].scenario.id@ == scenario_of(i).id@ {
        Some(from)
    } else {
        run_for(rows, i, from + 1)
    }
}

/// What the runs miss of row `i`.
pub open spec fn misses_of(rows: Seq<ScenarioRun>, i: usize) -> Seq<RowFault> {
    match run_for(rows, i as int, 0) {
        None => seq![RowFault::Missing { row: i }],
        Some(at) => row_misses(i, rows[at].report),
    }
}

/// What the runs miss of the first `n` rows.
pub open spec fn all_misses(rows: Seq<ScenarioRun>, n: nat) -> Seq<RowFault>
    decreases n,
{
    if n == 0 {
        Seq::empty()
    } else {
        all_misses(rows, (n - 1) as nat) + misses_of(rows, (n - 1) as usize)
    }
}

fn same_ticks(a: Option<i32>, b: Option<i32>) -> (r: bool)
    ensures
        r == (a == b),
{
    match (a, b) {
        (None, None) => true,
        (Some(x), Some(y)) => x == y,
        _ => false,
    }
}

fn push_row_misses(out: &mut Vec<RowFault>, i: usize, r: &FightReport)
    requires
        i < SCENARIO_COUNT,
    ensures
        final(out)@ == old(out)@ + row_misses(i, *r),
{
    let want: PublishedRow = published_row(i);
    if r.winner != want.winner {
        out.push(RowFault::Winner { row: i, got: r.winner });
    }
    let kill: Option<i32> = r.time_to_kill();
    if !same_ticks(kill, want.kill_ticks) {
        out.push(RowFault::KillTime { row: i, got: kill });
    }
    let death: Option<i32> = r.time_to_die();
    if !same_ticks(death, want.death_ticks) {
        out.push(RowFault::DeathTime { row: i, got: death });
    }
    let hp: i32 = r.hp_remaining();
    if hp != want.hp || r.player.max_hp != want.hp_max {
        out.push(RowFault::Health { row: i, hp, hp_max: r.player.max_hp });
    }
    assert(out@ =~= old(out)@ + row_misses(i, *r));
}

/// Holds the runs against the published rows; empty where every row is met.
pub fn match_published_rows(rows: &[ScenarioRun]) -> (faults: Vec<RowFault>)
    ensures
        faults@ == all_misses(rows@, SCENARIO_COUNT as nat),
{
    let mut faults: Vec<RowFault> = Vec::new();
    let mut i: usize = 0;
    while i < SCENARIO_COUNT
        invariant
            i <= SCENARIO_COUNT,
            faults@ == all_misses(rows@, i as nat),
        decreases SCENARIO_COUNT - i,
    {
        let s: Scenario = scenario(i);
        let mut at: usize = 0;
        while at < rows.len() && !str_eq(rows[at].scenario.id, s.id)
            invariant
                at <= rows@.len(),
                s == scenario_of(i as int),
                run_for(rows@, i as int, 0) == run_for(rows@, i as int, at as int),
            decreases rows@.len() - at,
        {
            at += 1;
        }
        if at == rows.len() {
            faults.push(RowFault::Missing { row: i });
        } else {
            push_row_misses(&mut faults, i, &rows[at].report);
        }
        i += 1;
        assert(faults@ =~= all_misses(rows@, i as nat));
    }
    faults
}

} // verus!
