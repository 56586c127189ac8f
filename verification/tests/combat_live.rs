use orrun::combat::actors::{ActorId, HostilePresentationSource, SpawnSeed};
use orrun::combat::arena::Arena;
use orrun::combat::attacks::{Attack, AttackFacts, CastNow};
use orrun::combat::hostile_ai::{HostileState, Senses, Sighting, Step};
use orrun::combat::hud::{
    CombatHudAction, CombatHudSnapshot, HeadAnchor, HeadPosition, HostileFacts, PlayerFacts,
};
use orrun::combat::live::WorldCombat;
use orrun::combat::math::{SHAKEN_S, SLAIN_HOLD_S, TICK};
use orrun::combat::number::{units, ONE};
use orrun::combat::player_actions::FailTell;
use orrun::combat::world::CombatHudProgression;
use orrun::gamedata::{ActionId, MobMode};
use orrun::measure::{Real, Real32};

fn seated(w: &mut WorldCombat, idx: i32) -> ActorId {
    w.register_hostile(idx, MobMode::Active, units(10), SpawnSeed::new(7))
}

#[test]
fn authoritative_arena_tracks_exact_hostile_identity() {
    let mut combat = WorldCombat::new();
    let id = combat.add_hostile(
        0,
        MobMode::Active,
        units(10),
        b"wolf",
        1.0f64.to_bits(),
        0.0f64.to_bits(),
    );
    assert_eq!(combat.arena.is_alive(id), Some(true));
    assert_eq!(combat.actor_id_from_resolution(id.canonical()), id);
    combat.deactivate_actors(&[id]);
    assert_eq!(combat.arena.is_alive(id), None);
}

#[test]
fn arenas_hold_each_actor_once() {
    let mut arena = Arena::new();
    let a = ActorId::from_runtime_index(4);
    let b = ActorId::from_runtime_index(5);
    arena.insert(a, true);
    arena.insert(b, false);
    assert_eq!(arena.is_alive(a), Some(true));
    assert_eq!(arena.is_alive(b), Some(false));
    arena.set_alive(a, false);
    assert_eq!(arena.is_alive(a), Some(false));
    arena.remove(a);
    assert_eq!(arena.is_alive(a), None);
    assert_eq!(arena.is_alive(b), Some(false));
}

#[test]
fn identities_are_never_given_twice() {
    let mut w = WorldCombat::new();
    let first = seated(&mut w, 3);
    w.deactivate_actors(&[first]);
    let second = seated(&mut w, 3);
    assert_eq!(first.canonical(), 1);
    assert_eq!(second.canonical(), 2);
    assert_eq!(w.arena_order(), [ActorId::player(), second]);
}

#[test]
fn those_who_leave_take_lock_and_body_along() {
    let mut w = WorldCombat::new();
    let a = seated(&mut w, 3);
    let b = seated(&mut w, 8);
    w.bind_presentation(a, HostilePresentationSource::Fauna, 90);
    w.bind_presentation(b, HostilePresentationSource::CombatLayer, 91);
    w.press_tab(&[3, 8]);
    assert_eq!(w.locks.lock, Some(3));
    w.deactivate_actors(&[a]);
    assert_eq!(w.locks.lock, None);
    assert_eq!(w.locks.cycle, [8]);
    assert_eq!(w.presentations.get(a), None);
    assert_eq!(w.hostiles.len(), 1);
    w.click_lock(&[8]);
    assert_eq!(w.release_combat_layer_presentations(), [91]);
    w.clear_hostiles();
    assert_eq!(w.locks.lock, None);
    assert_eq!(w.arena_order(), [ActorId::player()]);
    assert_eq!(w.arena.is_alive(b), None);
}

#[test]
fn bodies_are_taken_back_one_by_one() {
    let mut w = WorldCombat::new();
    let a = seated(&mut w, 3);
    w.bind_presentation(a, HostilePresentationSource::Fauna, 90);
    assert_eq!(w.unbind_presentation(a, HostilePresentationSource::Fauna), 90);
    assert_eq!(w.presentations.get(a), None);
}

#[test]
fn unseated_hostiles_stay_in_the_arena() {
    let mut w = WorldCombat::new();
    let a = seated(&mut w, 3);
    let b = seated(&mut w, 8);
    w.click_lock(&[8]);
    w.retain_hostiles(&[b]);
    assert_eq!(w.locks.lock, None);
    assert_eq!(w.arena_order(), [ActorId::player(), a]);
    assert_eq!(w.arena.is_alive(b), Some(true));
}

#[test]
fn resolved_actions_settle_the_world() {
    let mut w = WorldCombat::new();
    let a = seated(&mut w, 3);
    let b = seated(&mut w, 8);
    w.click_lock(&[8, 3]);
    w.settle(&[true, true, false], 0);
    assert_eq!(w.hostiles[0].mind.state, HostileState::Alerted);
    assert_eq!(w.hostiles[0].mind.target, Some(ActorId::player()));
    assert_eq!(w.hostiles[1].mind.state, HostileState::Dead);
    assert!(w.hostile_is_alive(a));
    assert!(!w.hostile_is_alive(b));
    assert_eq!(w.locks.lock, None);
    assert!(!w.clock.dead);
    w.click_lock(&[3]);
    w.settle(&[false, true, false], a.canonical());
    assert!(w.clock.dead);
    assert_eq!(w.clock.slain_hold_s, SLAIN_HOLD_S);
    assert_eq!(w.slain_by.as_deref(), Some("hostile"));
    assert_eq!(w.locks.lock, None);
    w.finish_death_respawn();
    assert!(!w.clock.dead);
    assert_eq!(w.clock.shaken_s, Some(SHAKEN_S));
    assert_eq!(w.arena.is_alive(ActorId::player()), Some(true));
    assert_eq!(w.slain_by, None);
}

#[test]
fn blows_to_the_player_are_kept() {
    let mut w = WorldCombat::new();
    seated(&mut w, 3);
    w.click_lock(&[3]);
    let hit = w.apply_damage_to_player(7, "wolf", false);
    assert_eq!((hit.dealt, hit.by.as_str(), hit.killed), (7, "wolf", false));
    assert!(!w.clock.dead);
    assert_eq!(w.locks.lock, Some(3));
    w.apply_damage_to_player(70, "bear", true);
    assert!(w.clock.dead);
    assert_eq!(w.slain_by.as_deref(), Some("bear"));
    assert_eq!(w.locks.lock, None);
    assert_eq!(w.last_incoming.as_ref().map(|h| h.dealt), Some(70));
    w.reset_for_fixture_start();
    assert!(!w.clock.dead);
    assert!(w.last_incoming.is_none());
    assert_eq!(w.slain_by, None);
}

#[test]
fn hurt_hostiles_turn_and_defeated_ones_rest() {
    let mut w = WorldCombat::new();
    let a = seated(&mut w, 3);
    seated(&mut w, 8);
    w.hostile_took_damage(3);
    assert_eq!(w.hostiles[0].mind.provoked_by, Some(ActorId::player()));
    assert_eq!(w.hostiles[1].mind.provoked_by, None);
    w.click_lock(&[3]);
    w.administratively_defeat_hostile(3);
    assert_eq!(w.hostiles[0].mind.state, HostileState::Dead);
    assert!(!w.hostile_is_alive(a));
    assert_eq!(w.locks.lock, None);
    w.click_lock(&[8]);
    w.reset_encounter_state();
    assert_eq!(w.locks.lock, None);
    assert!(w.locks.cycle.is_empty());
}

fn held(v: f64) -> Real {
    Real { bits: v.to_bits() }
}

fn spot(x: f64, y: f64, z: f64) -> HeadPosition {
    HeadPosition { x: held(x), y: held(y), z: held(z) }
}

fn wolf_facts(hp: f64) -> HostileFacts {
    HostileFacts {
        name: "Wolf".to_string(),
        hp: held(hp),
        hp_max: held(70.0),
        x: held(1.0),
        z: held(2.0),
    }
}

fn player_facts(hp: f64) -> PlayerFacts {
    PlayerFacts {
        hp: held(hp),
        hp_max: held(100.0),
        mana: held(50.0),
        mana_max: held(50.0),
        actions: vec![CombatHudAction {
            id: ActionId::new("slash"),
            name: "Slash".to_string(),
            cooldown_fraction: Real32 { bits: 0.5f32.to_bits() },
        }],
        cast_label: None,
        cast_fraction: None,
        progression: vec![
            CombatHudProgression::new("HP", 2, 9, 11),
            CombatHudProgression::new("Mana", 2, 7, 13),
        ],
    }
}

fn shown(w: &WorldCombat) -> CombatHudSnapshot {
    let facts: Vec<HostileFacts> = w.hostiles.iter().map(|_| wolf_facts(62.0)).collect();
    w.hud_snapshot(player_facts(73.0), &facts)
}

#[test]
fn hud_head_positions_require_exact_actor_identity_set() {
    let mut combat = WorldCombat::new();
    let actor_id = combat.add_hostile(
        0,
        MobMode::Active,
        units(10),
        b"wolf",
        1.0f64.to_bits(),
        2.0f64.to_bits(),
    );
    let mut snapshot = shown(&combat);
    let right = HeadAnchor { id: actor_id, at: spot(1.0, 2.0, 3.0) };
    let stranger = HeadAnchor { id: ActorId::from_runtime_index(99), at: spot(4.0, 5.0, 6.0) };
    assert!(!snapshot.heads_fit(&[]));
    assert!(!snapshot.heads_fit(&[right, stranger]));
    assert!(!snapshot.heads_fit(&[stranger]));
    assert!(snapshot.heads_fit(&[right]));
    assert_eq!(snapshot.actors[0].head, spot(1.0, 1.55, 2.0));
    snapshot.with_head_positions(&[right]);
    assert_eq!(snapshot.actors[0].head, spot(1.0, 2.0, 3.0));
    assert_eq!(snapshot.actors[0].name, "Wolf");
}

#[test]
fn snapshots_show_the_world_as_it_was() {
    let mut w = WorldCombat::new();
    let a = seated(&mut w, 3);
    let b = seated(&mut w, 8);
    w.click_lock(&[8]);
    w.log.push("You hit Wolf for 8".to_string());
    let mut log = w.log.clone();
    w.clock.fails.note_fail(&mut log, FailTell::NoTarget);
    let mut shot = shown(&w);
    assert_eq!(shot.lock, Some(b));
    assert_eq!(shot.locked_actor().map(|x| x.id), Some(b));
    assert_eq!(shot.actors.len(), 2);
    assert_eq!(shot.actors[0].id, a);
    assert!(shot.actors[0].alive);
    assert_eq!(shot.log_lines, ["You hit Wolf for 8"]);
    assert_eq!(shot.fail_tell, Some(FailTell::NoTarget));
    assert_eq!(shot.progression[0].label(), "HP");
    assert_eq!(shot.progression[1].xp_total(), 20);
    assert_eq!(shot.slain_line, None);
    w.apply_damage_to_player(99, "bear", true);
    assert!(!shot.dead);
    let later = shown(&w);
    assert!(later.dead);
    assert_eq!(later.slain_line.as_deref(), Some("Slain by bear"));
    assert_eq!(later.lock, None);
    shot.with_presentation(true, false, Some(Real32 { bits: 0.25f32.to_bits() }));
    assert!(shot.attack_pip);
    assert_eq!(shot.lock, Some(b));
}

fn idle() -> AttackFacts {
    AttackFacts { cast: None, can_act: true, choice: None, takes_time: false }
}

#[test]
fn attackers_strike_in_order_of_identity() {
    let mut w = WorldCombat::new();
    let a = seated(&mut w, 9);
    let b = seated(&mut w, 4);
    let c = seated(&mut w, 2);
    let d = seated(&mut w, 1);
    for h in w.hostiles.iter_mut() {
        h.mind.state = HostileState::Attacking;
        h.mind.target = Some(ActorId::player());
    }
    w.hostiles.reverse();
    let at_once = AttackFacts { choice: Some(1), ..idle() };
    let casting = AttackFacts { choice: Some(0), takes_time: true, ..idle() };
    let done = AttackFacts {
        cast: Some(CastNow { done: true, target: d.canonical(), action: 5 }),
        ..idle()
    };
    let staged = w.stage_attacks(&[at_once, casting, at_once, done], TICK);
    assert_eq!(staged.starts, [Attack { caster: c, target: ActorId::player(), action: 0 }]);
    assert_eq!(
        staged.ready,
        [
            Attack { caster: a, target: d, action: 5 },
            Attack { caster: b, target: ActorId::player(), action: 1 },
            Attack { caster: d, target: ActorId::player(), action: 1 },
        ]
    );
    for no_time in [0, -TICK] {
        let quiet = w.stage_attacks(&[at_once, casting, at_once, done], no_time);
        assert!(quiet.starts.is_empty());
        assert!(quiet.ready.is_empty());
    }
    w.apply_damage_to_player(50, "bear", true);
    let quiet = w.stage_attacks(&[at_once, casting, at_once, done], TICK);
    assert!(quiet.starts.is_empty());
    assert!(quiet.ready.is_empty());
}

#[test]
fn waiting_and_held_hostiles_stage_nothing() {
    let mut w = WorldCombat::new();
    seated(&mut w, 0);
    seated(&mut w, 1);
    w.hostiles[0].mind.state = HostileState::Attacking;
    w.hostiles[0].mind.target = Some(ActorId::player());
    let held_still = AttackFacts { can_act: false, choice: Some(1), ..idle() };
    let ready = AttackFacts { choice: Some(1), ..idle() };
    let staged = w.stage_attacks(&[held_still, ready], TICK);
    assert!(staged.starts.is_empty());
    assert!(staged.ready.is_empty());
}

#[test]
fn strikes_name_the_killer() {
    let mut w = WorldCombat::new();
    let a = seated(&mut w, 0);
    let hit = w.note_strike("wolf", 6);
    assert_eq!((hit.dealt, hit.killed), (6, false));
    assert_eq!(w.slain_by, None);
    w.settle(&[false, true], a.canonical());
    let hit = w.note_strike("wolf", 60);
    assert!(hit.killed);
    assert_eq!(w.slain_by.as_deref(), Some("wolf"));
}

#[test]
fn every_living_hostile_thinks() {
    let mut w = WorldCombat::new();
    let a = seated(&mut w, 0);
    seated(&mut w, 1);
    assert!(!w.in_combat());
    w.settle(&[true, true, false], 0);
    assert!(w.in_combat());
    let player = Sighting {
        id: ActorId::player(),
        mode: MobMode::Active,
        alive: true,
        hostile: true,
        distance_rank: 5,
        chance: 0,
        apart: true,
        in_reach: false,
    };
    let others = [player];
    let senses = || Senses {
        alive: true,
        can_move: true,
        beyond_leash: false,
        at_home: true,
        has_action: true,
        others: &others,
    };
    let steps = w.tick_hostile_ai(&[senses(), senses()], ONE / 10);
    assert_eq!(steps, [Step::Chase(ActorId::player()), Step::Rest]);
    assert_eq!(w.hostiles[0].mind.state, HostileState::Pursuing);
    assert_eq!(w.hostiles[0].actor_id, a);
    w.apply_damage_to_player(99, "bear", true);
    assert!(w.tick_hostile_ai(&[senses(), senses()], ONE / 10).is_empty());
}
