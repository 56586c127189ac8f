use orrun::combat::actors::{
    deterministic_unit, mix64, next_actor_runtime_index, stable_spawn_hash, ActorId,
    ActorPresentationRegistry, ActorSequence, HostilePresentationSource, SpawnSeed,
};
use orrun::combat::fighters::Cooldowns;
use orrun::combat::hostile_ai::{HostileState, Mind, Senses, Sighting, Step};
use orrun::combat::log::CombatLog;
use orrun::combat::math::{mitigation, Discipline, BASH_STUN_S, BIND_ROOT_S, PIN_DUR_S};
use orrun::combat::number::{units, ONE};
use orrun::combat::player_actions::{
    finish_action, hostile_actor_index, hostile_turn, press_action, pursuit_action, select_target,
    selected_usable_action, FailBoard, FailTell, Outcome, Press, PressFacts, Seat,
    Settled, Turn, TurnFacts,
};
use orrun::combat::sheets::player_stats;
use orrun::combat::target::{LockState, TargetLock};
use orrun::combat::verb_effects::{VerbPlayer, VerbTarget};
use orrun::combat::verbs::{
    cast_duration_s, cast_label, cd_max, finish_cast, press_verb, CastEffect, CastFacts, CombatVerb,
    HoldTimers, VerbCast, VerbFacts, VerbPress, VerbTimers,
};
use orrun::combat::world::{
    mana_regen, record_resolution_log, slain_line, validate_player_save, validate_resource,
    CombatHudProgression, CombatStep, IncomingHit, LoggedHit, ResourceFault, WorldClock,
};
use orrun::gamedata::{ActionTarget, EffectOperation, MobMode};
use orrun::measure::Real;

fn held(v: f64) -> Real {
    Real { bits: v.to_bits() }
}

fn actor(index: i32) -> ActorId {
    ActorId::from_runtime_index(index)
}

#[test]
fn identities_keep_their_index() {
    let a = actor(4);
    assert_eq!(a.runtime_index(), Some(4));
    assert_eq!(ActorId::player().runtime_index(), None);
    assert_ne!(a.canonical(), ActorId::player().canonical());
    assert!(ActorId::player().before(a));
    let mut seq = ActorSequence::start();
    let first = seq.assigned(4);
    let second = seq.assigned(4);
    assert_ne!(first, second);
    assert_eq!(next_actor_runtime_index(&[0, 5, 2]), 6);
    assert_eq!(next_actor_runtime_index(&[]), 0);
}

#[test]
fn hashes_are_stable() {
    assert_eq!(mix64(0), mix64(0));
    assert_ne!(mix64(1), mix64(2));
    assert_eq!(SpawnSeed::new(7).value(), 7);
    assert!(deterministic_unit(SpawnSeed::new(7), 3) < (1u64 << 53));
    let here = stable_spawn_hash(2, b"wolf", 1.5f64.to_bits(), 2.5f64.to_bits());
    assert_eq!(here, stable_spawn_hash(2, b"wolf", 1.5f64.to_bits(), 2.5f64.to_bits()));
    assert_ne!(here, stable_spawn_hash(2, b"deer", 1.5f64.to_bits(), 2.5f64.to_bits()));
}

#[test]
fn bodies_are_bound_and_taken_away() {
    let mut registry = ActorPresentationRegistry::new();
    registry.bind(actor(1), HostilePresentationSource::Fauna, 11);
    registry.bind(actor(2), HostilePresentationSource::CombatLayer, 22);
    registry.bind(actor(3), HostilePresentationSource::Fauna, 33);
    assert_eq!(registry.get(actor(2)).unwrap().entity(), 22);
    let mut gone = registry.remove_source(HostilePresentationSource::Fauna);
    gone.sort();
    assert_eq!(gone, [11, 33]);
    assert!(registry.get(actor(1)).is_none());
    assert_eq!(registry.unbind(actor(2), HostilePresentationSource::CombatLayer), 22);
    assert!(registry.get(actor(2)).is_none());
}

fn sighting(id: ActorId, rank: u64) -> Sighting {
    Sighting {
        id,
        mode: MobMode::Active,
        alive: true,
        hostile: true,
        distance_rank: rank,
        chance: 1u64 << 53,
        apart: true,
        in_reach: false,
    }
}

#[test]
fn aggressors_notice_and_chase() {
    let mut mind = Mind::new(MobMode::Active, SpawnSeed::new(5), units(10));
    let others = [sighting(ActorId::player(), 7)];
    let senses = Senses {
        alive: true,
        can_move: true,
        beyond_leash: false,
        at_home: true,
        has_action: true,
        others: &others,
    };
    let mut chased = false;
    for _ in 0..40 {
        if mind.think(&senses, ONE / 10) == Step::Chase(ActorId::player()) {
            chased = true;
        }
    }
    assert!(chased);
    assert_eq!(mind.target, Some(ActorId::player()));
    assert!(mind.state.is_engaged());
}

#[test]
fn leash_sends_home_and_death_rests() {
    let mut mind = Mind::new(MobMode::Active, SpawnSeed::new(5), units(10));
    let senses = Senses {
        alive: true,
        can_move: true,
        beyond_leash: true,
        at_home: false,
        has_action: true,
        others: &[],
    };
    assert_eq!(mind.think(&senses, ONE / 10), Step::ReturnHome);
    assert_eq!(mind.state, HostileState::Leashing);
    assert_eq!(mind.target, None);
    let dead = Senses { alive: false, ..senses };
    assert_eq!(mind.think(&dead, ONE / 10), Step::Rest);
    assert_eq!(mind.state, HostileState::Dead);
}

#[test]
fn struck_actors_remember_who_did_it() {
    let mut mind = Mind::new(MobMode::Passive, SpawnSeed::new(5), units(10));
    mind.set_retaliation(ActorId::player());
    assert_eq!(mind.provoked_by, Some(ActorId::player()));
}

fn press_facts() -> PressFacts {
    PressFacts {
        dead: false,
        can_act: true,
        casting: false,
        cooling: false,
        lock: Some(3),
        lock_alive: true,
        mana_suffices: true,
        takes_time: false,
    }
}

#[test]
fn presses_are_answered() {
    assert_eq!(press_action(ActionTarget::Hostile, press_facts()), Press::Finish(Some(3)));
    let casts = PressFacts { takes_time: true, ..press_facts() };
    assert_eq!(press_action(ActionTarget::Hostile, casts), Press::Cast(Some(3)));
    let unlocked = PressFacts { lock: None, ..press_facts() };
    assert_eq!(
        press_action(ActionTarget::Hostile, unlocked),
        Press::Failed(FailTell::NoTarget)
    );
    let dry = PressFacts { mana_suffices: false, ..press_facts() };
    assert_eq!(
        press_action(ActionTarget::Hostile, dry),
        Press::Failed(FailTell::NotEnoughMana)
    );
    let dead = PressFacts { dead: true, ..press_facts() };
    assert_eq!(press_action(ActionTarget::Hostile, dead), Press::Ignored);
    let casting = PressFacts { casting: true, ..press_facts() };
    let cooling = PressFacts { cooling: true, ..press_facts() };
    let held = PressFacts { can_act: false, ..press_facts() };
    for over in [dead, casting, cooling, held] {
        assert_eq!(press_action(ActionTarget::Nothing, over), Press::Ignored);
    }
    assert_eq!(select_target(ActionTarget::Hostile, None), Err(FailTell::NoTarget));
}

#[test]
fn outcomes_are_settled() {
    assert_eq!(finish_action(Outcome::Done, true), Settled::Counts { cools: true });
    assert_eq!(finish_action(Outcome::Done, false), Settled::Counts { cools: false });
    assert_eq!(
        finish_action(Outcome::OutOfRange, true),
        Settled::Failed(FailTell::OutOfRange)
    );
    assert_eq!(finish_action(Outcome::NoTarget, true), Settled::Failed(FailTell::NoTarget));
    assert_eq!(
        finish_action(Outcome::InsufficientMana, true),
        Settled::Failed(FailTell::NotEnoughMana)
    );
}

#[test]
fn failures_are_told_for_a_while() {
    let mut log = CombatLog::new();
    let mut board = FailBoard::new();
    board.note_fail(&mut log, FailTell::NoTarget);
    assert_eq!(board.fail_tell(), Some(FailTell::NoTarget));
    assert_eq!(log.lines(), [FailTell::NoTarget.as_str()]);
    let mut ticks = 0;
    while board.fail_tell().is_some() {
        board.tick();
        ticks += 1;
        assert!(ticks < 20);
    }
    assert!(ticks >= 12);
}

#[test]
fn hostiles_take_their_turn() {
    let facts = TurnFacts {
        alive: true,
        state: HostileState::Attacking,
        cast: None,
        can_act: true,
        choice: Some(1),
        takes_time: false,
    };
    assert_eq!(hostile_turn(facts), Turn::Strike(1));
    assert_eq!(hostile_turn(TurnFacts { takes_time: true, ..facts }), Turn::StartCast(1));
    assert_eq!(hostile_turn(TurnFacts { cast: Some(true), ..facts }), Turn::Complete);
    assert_eq!(hostile_turn(TurnFacts { alive: false, ..facts }), Turn::Wait);
    assert_eq!(hostile_turn(TurnFacts { choice: None, ..facts }), Turn::Wait);
}

#[test]
fn reach_decides_the_action() {
    let ranges = [Some(held(2.0)), None, Some(held(20.0))];
    assert_eq!(selected_usable_action(&ranges, held(1.0)), Some(0));
    assert_eq!(selected_usable_action(&ranges, held(10.0)), Some(2));
    assert_eq!(selected_usable_action(&ranges, held(30.0)), None);
    assert_eq!(pursuit_action(&[None, None]), None);
    assert!(pursuit_action(&ranges).is_some());
    let seats = [Seat { idx: 4, alive: true }, Seat { idx: 7, alive: true }];
    assert!(hostile_actor_index(&seats, 7).is_some());
    assert_eq!(hostile_actor_index(&seats, 9), None);
}

#[test]
fn locks_follow_tab_and_click() {
    let mut state = LockState::new();
    assert_eq!(state.lock, None);
    assert!(TargetLock::clear().is_none());
    state.press_tab(&[4, 6]);
    assert_eq!(state.lock, Some(4));
    state.press_tab(&[4, 6]);
    assert_eq!(state.lock, Some(6));
    state.forget(&[6]);
    assert_eq!(state.lock, None);
    state.set_lock(Some(4));
    state.release(4);
    assert_eq!(state.lock, None);
}

#[test]
fn dead_world_waits_out_its_hold() {
    let mut clock = WorldClock::new();
    assert!(clock.begin_step());
    assert!(clock.slay());
    assert!(clock.dead);
    assert!(!clock.slay());
    for _ in 0..10 {
        assert!(!clock.begin_step());
    }
    clock.finish_death_respawn();
    assert!(!clock.dead);
    assert!(clock.shaken_s.is_some());
}

#[test]
fn saves_are_checked() {
    assert!(validate_player_save(held(73.0), held(100.0), held(41.0), held(50.0)).is_ok());
    assert_eq!(
        validate_resource(held(f64::NAN), held(10.0), false),
        Some(ResourceFault::NotFinite)
    );
    assert_eq!(validate_resource(held(0.0), held(10.0), true), Some(ResourceFault::DeadPlayer));
    assert_eq!(validate_resource(held(11.0), held(10.0), false), Some(ResourceFault::OutOfRange));
    assert_eq!(validate_resource(held(0.0), held(10.0), false), None);
    assert!(mana_regen(false) > mana_regen(true));
}

#[test]
fn hits_are_put_in_words() {
    let mut log = CombatLog::new();
    let hits = [
        LoggedHit {
            operation: EffectOperation::DirectDamage,
            target: Some("Wolf"),
            took: true,
            amount: 12,
        },
        LoggedHit { operation: EffectOperation::Heal, target: None, took: false, amount: 5 },
    ];
    record_resolution_log(&mut log, None, "slash", false, &hits);
    assert_eq!(log.lines(), ["You slash Wolf for 12"]);
    let back = [LoggedHit {
        operation: EffectOperation::DirectDamage,
        target: None,
        took: true,
        amount: 3,
    }];
    record_resolution_log(&mut log, Some("Wolf"), "bite", false, &back);
    assert_eq!(log.lines(), ["You slash Wolf for 12", "Wolf hits you for 3"]);
    assert!(slain_line("Wolf").contains("Wolf"));
}

#[test]
fn hud_shows_progress() {
    let hud = CombatHudProgression::new("Mana", 3, 40, 60);
    assert_eq!(hud.label(), "Mana");
    assert_eq!(hud.level(), 3);
    assert_eq!(hud.xp(), 40);
    assert_eq!(hud.xp_total(), 100);
    let hit = IncomingHit { dealt: 4, by: "Wolf".to_string(), killed: false };
    let step = CombatStep { resolutions: vec![hit] };
    assert_eq!(step.resolutions[0].dealt, 4);
}

fn verb_facts() -> VerbFacts {
    VerbFacts {
        rank_ok: true,
        casting: false,
        pausing: false,
        cooling: false,
        arrows: 5,
        potions: 1,
        mana: units(50),
        second_wind_used: false,
        lock: Some(2),
        lock_alive: true,
        in_reach: true,
    }
}

#[test]
fn verbs_follow_their_gates() {
    assert_eq!(press_verb(CombatVerb::Strike, verb_facts()), VerbPress::Arm);
    let low = VerbFacts { rank_ok: false, ..verb_facts() };
    assert_eq!(press_verb(CombatVerb::Strike, low), VerbPress::RankBlocked);
    let busy = VerbFacts { casting: true, ..verb_facts() };
    assert_eq!(press_verb(CombatVerb::Strike, busy), VerbPress::Ignored);
    assert_eq!(press_verb(CombatVerb::Potion, busy), VerbPress::Drink);
    let drained = VerbFacts { mana: -ONE, ..verb_facts() };
    assert_eq!(press_verb(CombatVerb::Strike, drained), VerbPress::Arm);
    assert_eq!(press_verb(CombatVerb::Mark, drained), VerbPress::Mark);
    assert_eq!(press_verb(CombatVerb::Mend, drained), VerbPress::Ignored);
    assert_eq!(cd_max(CombatVerb::Strike), units(6));
    assert_eq!(cd_max(CombatVerb::Potion), units(60));
    assert!(cast_duration_s(VerbCast::Mend) > cast_duration_s(VerbCast::Bash));
    assert!(!cast_label(VerbCast::Mend).is_empty());
    let facts = CastFacts { target: None, lock: None, alive: true, in_range: true, arrows: 1 };
    assert_eq!(finish_cast(VerbCast::Mend, facts), CastEffect::Heal);
    assert_eq!(finish_cast(VerbCast::Bash, facts), CastEffect::Nothing);
}

#[test]
fn running_tires_and_rest_restores() {
    let mut mind = Mind::new(MobMode::Active, SpawnSeed::new(5), units(10));
    assert_eq!(mind.endurance_s, units(10));
    mind.breathe(true, units(4));
    assert_eq!(mind.endurance_s, units(6));
    mind.breathe(false, units(1));
    assert_eq!(mind.endurance_s, units(7));
    mind.breathe(false, units(100));
    assert_eq!(mind.endurance_s, units(10));
    mind.breathe(true, units(100));
    assert_eq!(mind.endurance_s, 0);
}

#[test]
fn wounds_provoke_and_kill() {
    let mut mind = Mind::new(MobMode::Passive, SpawnSeed::new(5), units(10));
    mind.reduce(actor(3), actor(3), true);
    assert_eq!(mind.provoked_by, None);
    mind.reduce(actor(3), ActorId::player(), true);
    assert_eq!(mind.provoked_by, Some(ActorId::player()));
    assert_eq!(mind.state, HostileState::Alerted);
    mind.reduce(actor(3), ActorId::player(), false);
    assert_eq!(mind.state, HostileState::Dead);
}

#[test]
fn clicks_lock_the_nearest_and_resets_let_go() {
    let mut state = LockState::new();
    state.click_lock(&[9, 2]);
    assert_eq!(state.lock, Some(9));
    assert_eq!(state.cycle, [9, 2]);
    state.retain(&[2, 9]);
    assert_eq!(state.lock, Some(9));
    state.retain(&[2]);
    assert_eq!(state.lock, None);
    assert_eq!(state.cycle, [9, 2]);
    state.click_lock(&[7]);
    state.reset();
    assert_eq!(state.lock, None);
    assert!(state.cycle.is_empty());
    state.click_lock(&[]);
    assert_eq!(state.lock, None);
}

#[test]
fn fixtures_start_with_a_living_player() {
    let mut clock = WorldClock::new();
    assert!(clock.begin_step());
    assert!(clock.slay());
    let tick = clock.tick;
    clock.reset_for_fixture_start();
    assert_eq!(clock.tick, tick);
    assert!(!clock.dead);
    assert_eq!(clock.slain_hold_s, 0);
    assert_eq!(clock.shaken_s, None);
    assert_eq!(clock.fails.tell, None);
}

fn verb_timers() -> VerbTimers {
    VerbTimers {
        cds: Cooldowns {
            strike: units(6),
            bash: 0,
            aimed: 0,
            pin: 0,
            ember: 0,
            mend: 0,
            bind: 0,
            ward: units(16),
            potion: units(1),
            mark: 0,
        },
        gcd_s: units(1),
        busy_s: units(3),
        ward: units(23),
        ward_s: units(2),
        mark_s: units(12),
        cast: Some(VerbCast::Mend),
        cast_s: units(3),
    }
}

#[test]
fn verbs_run_down_until_their_cast_is_done() {
    let mut t = verb_timers();
    assert_eq!(t.tick_verbs(0), None);
    assert_eq!(t, verb_timers());
    assert_eq!(t.tick_verbs(units(1)), None);
    assert_eq!((t.cds.strike, t.cds.ward, t.cds.potion), (units(5), units(15), 0));
    assert_eq!((t.gcd_s, t.busy_s, t.cast_s), (0, units(2), units(2)));
    assert_eq!((t.ward, t.ward_s, t.mark_s), (units(23), units(1), units(11)));
    assert_eq!(t.tick_verbs(units(1)), None);
    assert_eq!((t.ward, t.ward_s), (0, 0));
    assert_eq!(t.tick_verbs(units(1)), Some(VerbCast::Mend));
    assert_eq!((t.cast, t.cast_s, t.busy_s), (None, 0, 0));
    assert_eq!(t.tick_verbs(units(100)), None);
    assert_eq!(t.cds.ward, 0);
}

#[test]
fn holds_on_hostiles_run_out() {
    let mut h = HoldTimers { stun_s: units(2), slow_s: units(4), root_s: 0 };
    h.tick(units(3));
    assert_eq!(h, HoldTimers { stun_s: 0, slow_s: units(1), root_s: 0 });
    h.tick(-ONE);
    assert_eq!(h.slow_s, units(1));
}

fn verb_player(level: i32, discipline: Discipline) -> VerbPlayer {
    let stats = player_stats(level, discipline);
    let timers = VerbTimers {
        cds: Cooldowns {
            strike: 0,
            bash: 0,
            aimed: 0,
            pin: 0,
            ember: 0,
            mend: 0,
            bind: 0,
            ward: 0,
            potion: 0,
            mark: 0,
        },
        gcd_s: 0,
        busy_s: 0,
        ward: 0,
        ward_s: 0,
        mark_s: 0,
        cast: None,
        cast_s: 0,
    };
    VerbPlayer {
        stats,
        timers,
        hp: units(50),
        hp_max: stats.hp,
        mana: units(stats.mana),
        arrows: 3,
        potions: 1,
        shaken: false,
        strike_armed: false,
        ember_started: false,
        second_wind_used: false,
        used_pin_or_bind: false,
        cast_target: None,
        lock: Some(2),
        fails: FailBoard::new(),
        last_potion_heal: 0,
    }
}

#[test]
fn pressed_verbs_are_carried_out() {
    let mut log = CombatLog::new();
    let start = verb_player(1, Discipline::Arcane);
    let mut p = start;
    p.carry_out(VerbPress::Ignored, &mut log);
    p.carry_out(VerbPress::RankBlocked, &mut log);
    assert_eq!(p, start);
    p.carry_out(VerbPress::Failed(FailTell::OutOfRange), &mut log);
    assert_eq!(p.fails.tell, Some(FailTell::OutOfRange));
    p.carry_out(VerbPress::Arm, &mut log);
    assert!(p.strike_armed);
    assert_eq!(p.timers.cds.strike, units(6));
    let burn = VerbPress::Cast { kind: VerbCast::Ember, target: Some(2), mana: 3 };
    p.carry_out(burn, &mut log);
    assert_eq!(p.mana, units(47));
    assert_eq!(p.timers.cast, Some(VerbCast::Ember));
    assert_eq!(p.timers.cast_s, cast_duration_s(VerbCast::Ember));
    assert_eq!(p.timers.busy_s, p.timers.cast_s);
    assert_eq!(p.timers.cds.ember, cd_max(CombatVerb::Ember));
    assert_eq!(p.cast_target, Some(2));
    assert!(p.ember_started);
    p.carry_out(VerbPress::Ward { mana: 18 }, &mut log);
    assert_eq!(p.mana, units(29));
    assert_eq!(p.timers.ward, units(start.stats.ward()));
    assert_eq!(p.timers.ward_s, units(8));
    assert_eq!(p.timers.gcd_s, units(1));
    assert_eq!(p.timers.cds.ward, units(16));
    p.carry_out(VerbPress::Mark, &mut log);
    assert_eq!((p.timers.mark_s, p.timers.cds.mark), (units(12), units(20)));
    p.carry_out(VerbPress::SecondWind, &mut log);
    assert_eq!(p.hp, units(70));
    assert!(p.second_wind_used);
    p.carry_out(VerbPress::Drink, &mut log);
    assert_eq!((p.hp, p.potions, p.last_potion_heal), (units(100), 0, 30));
    assert_eq!(p.timers.cds.potion, units(60));
}

#[test]
fn done_casts_are_carried_out() {
    let mob = VerbTarget {
        hp: units(70),
        armor: 8,
        alive: true,
        holds: HoldTimers { stun_s: 0, slow_s: 0, root_s: 0 },
    };
    let mut p = verb_player(1, Discipline::Hunt);
    p.cast_target = Some(2);
    let mut h = mob;
    p.carry_out_cast(CastEffect::Nothing, &mut h, 0);
    assert_eq!((h, p.cast_target), (mob, None));
    p.carry_out_cast(CastEffect::Stun(2), &mut h, 0);
    assert_eq!(h.holds.stun_s, BASH_STUN_S);
    p.carry_out_cast(CastEffect::Root(2), &mut h, 0);
    assert_eq!(h.holds.root_s, BIND_ROOT_S);
    assert!(p.used_pin_or_bind);
    p.carry_out_cast(CastEffect::Heal, &mut h, 0);
    assert_eq!(p.hp, units(50 + p.stats.mend()));
    let shot = CastEffect::Shoot { idx: 2, aimed: true, slows: false };
    let raw = p.stats.bow_hit(true, units(10));
    p.carry_out_cast(shot, &mut h, units(10));
    assert_eq!(h.hp, units(70 - mitigation(units(raw), 8)));
    assert_eq!((p.arrows, p.lock, h.alive), (2, Some(2), true));
    h.hp = units(1);
    let pin = CastEffect::Shoot { idx: 2, aimed: false, slows: true };
    p.carry_out_cast(pin, &mut h, units(10));
    assert_eq!((h.hp, h.alive, p.lock, p.arrows), (0, false, None, 1));
    assert_eq!(h.holds.slow_s, PIN_DUR_S);
    let mut q = verb_player(1, Discipline::Arcane);
    let mut other = mob;
    q.carry_out_cast(CastEffect::Burn(5), &mut other, 0);
    assert_eq!(other.hp, units(70 - mitigation(units(q.stats.ember()), 8)));
    other.hp = units(1);
    q.carry_out_cast(CastEffect::Burn(5), &mut other, 0);
    assert_eq!((other.alive, q.lock), (false, Some(2)));
}

#[test]
fn long_turns_are_thought_through() {
    let mut mind = Mind::new(MobMode::Active, SpawnSeed::new(5), units(10));
    let others = [sighting(ActorId::player(), 7)];
    let senses = Senses {
        alive: true,
        can_move: true,
        beyond_leash: false,
        at_home: false,
        has_action: true,
        others: &others,
    };
    mind.think(&senses, units(5000));
    assert!(mind.detection_left_s > 0 && mind.detection_left_s <= ONE);
    mind.think(&senses, 0);
    assert!(mind.detection_left_s > 0 && mind.detection_left_s <= ONE);
}
