use orrun::controls::{
    assign, missing_binds, reserved_names, resolve, resolve_pressed, BindFault, KeyBinds,
    PressedActions,
};
use orrun::gamedata::faults::{Actor, Label, NumberField, ReachFault};
use orrun::gamedata::raw::{
    RawAction, RawActionEffect, RawDefaultValue, RawEffect, RawFaction, RawGameData, RawHamlet,
    RawMobDefinition, RawMovementSpec, RawPlayerProfile, RawProfileSkill, RawSkill,
};
use orrun::gamedata::{
    ActionId, ActionTarget, Application, EffectId, EffectOperation, FactionId, GameData,
    GameDataFault, MobId, MobMode, MovementId, ProfileFault, ProfileId, Progression, SkillId,
};
use orrun::measure::Real;

fn held(v: f64) -> Real {
    Real { bits: v.to_bits() }
}

fn skill(id: &str) -> RawSkill {
    RawSkill {
        id: id.to_string(),
        name: id.to_string(),
        description: "a skill".to_string(),
        level_scale: held(1.0),
    }
}

fn effect(id: &str, operation: &str, skill_id: &str) -> RawEffect {
    RawEffect {
        id: id.to_string(),
        name: id.to_string(),
        operation: operation.to_string(),
        skill_id: skill_id.to_string(),
        progression: "skill_level".to_string(),
    }
}

fn assignment(effect_id: &str, magnitude: f64, duration: f64, multiplier: f64) -> RawActionEffect {
    RawActionEffect {
        effect_id: effect_id.to_string(),
        magnitude: held(magnitude),
        application: "single_target".to_string(),
        range_m: held(3.0),
        radius_m: held(0.0),
        angle_deg: held(0.0),
        duration_s: held(duration),
        movement_multiplier: held(multiplier),
    }
}

fn action(id: &str, assigned: RawActionEffect) -> RawAction {
    RawAction {
        id: id.to_string(),
        name: id.to_string(),
        description: "an action".to_string(),
        target: "hostile".to_string(),
        mana_cost: held(0.0),
        cast_s: held(0.5),
        cooldown_s: held(2.0),
        interruptible: true,
        reveals: false,
        effects: vec![assigned],
    }
}

fn canonical() -> RawGameData {
    RawGameData {
        schema_version: 3,
        skills: vec![skill("melee"), skill("charm")],
        factions: vec![
            RawFaction { id: "town".to_string(), name: "Town".to_string(), neutral: false },
            RawFaction { id: "wild".to_string(), name: "Wild".to_string(), neutral: false },
            RawFaction { id: "calm".to_string(), name: "Calm".to_string(), neutral: true },
        ],
        effects: vec![
            effect("cut", "direct_damage", "melee"),
            effect("slow", "snare", "melee"),
            effect("sway", "charm", "charm"),
        ],
        actions: vec![
            action("slash", assignment("cut", 4.0, 0.0, 1.0)),
            action("hobble", assignment("slow", 1.0, 6.0, 0.5)),
            action("sing", assignment("sway", 1.0, 4.0, 1.0)),
        ],
        players: vec![RawPlayerProfile {
            id: "default_player".to_string(),
            name: "Player".to_string(),
            faction: "town".to_string(),
            skills: vec![RawProfileSkill { id: "melee".to_string(), level: 1 }],
            actions: vec!["slash".to_string(), "hobble".to_string()],
        }],
        mobs: vec![RawMobDefinition {
            id: "hexer".to_string(),
            name: "Hexer".to_string(),
            faction: "wild".to_string(),
            mode: "active".to_string(),
            movement_id: "walk".to_string(),
            species_id: "witch".to_string(),
            hp: 40,
            armor: 2,
            speed_variance_ratio: held(0.1),
            endurance_s: held(12.0),
            skills: vec![
                RawProfileSkill { id: "charm".to_string(), level: 2 },
                RawProfileSkill { id: "melee".to_string(), level: 1 },
            ],
            actions: vec!["sing".to_string(), "slash".to_string()],
        }],
        movement: vec![RawMovementSpec { id: "walk".to_string(), speed_mps: held(2.5) }],
        hamlet: RawHamlet {
            enabled: true,
            width: 40,
            depth: 30,
            kit_catalog: "kit".to_string(),
            layers: vec!["ground".to_string()],
        },
        defaults: vec![RawDefaultValue {
            key: "default_player_profile".to_string(),
            value: "default_player".to_string(),
        }],
    }
}

fn refusal(raw: &RawGameData) -> GameDataFault {
    match GameData::from_raw(raw) {
        Ok(_) => panic!("must be refused"),
        Err(fault) => fault,
    }
}

fn told(raw: &RawGameData) -> String {
    refusal(raw).message(raw)
}

#[test]
fn sound_data_loads_typed() {
    let data = GameData::from_raw(&canonical()).unwrap();
    let profile = data.profile(&ProfileId::new("default_player")).unwrap();
    assert_eq!(profile.actions().len(), 2);
    let hobble = data.action(&ActionId::new("hobble")).unwrap();
    let snare = &hobble.effects()[0];
    assert_eq!(snare.duration_s(), held(6.0));
    assert_eq!(snare.movement_multiplier(), held(0.5));
    assert_eq!(snare.application(), Application::SingleTarget);
    assert!(hobble.interruptible());
    assert!(!hobble.reveals());
    assert_eq!(hobble.target(), ActionTarget::Hostile);
    let hexer = data.mob(&MobId::new("hexer")).unwrap();
    assert!(hexer.skills().iter().any(|s| s.id().same(&SkillId::new("charm")) && s.level() == 2));
    assert_eq!(hexer.mode(), MobMode::Active);
    assert_eq!(hexer.hp(), 40);
    assert_eq!(hexer.endurance_s().seconds(), held(12.0));
    assert_eq!(hexer.species_id().unwrap().as_str(), "witch");
    let cut = data.effect(&EffectId::new("cut")).unwrap();
    assert_eq!(cut.operation(), EffectOperation::DirectDamage);
    assert_eq!(cut.progression(), Progression::SkillLevel);
    assert!(data.skill(&SkillId::new("melee")).is_some());
    assert!(data.skill(&SkillId::new("cooking")).is_none());
    assert_eq!(
        data.movement_by_id(&MovementId::new("walk")).unwrap().speed_mps(),
        held(2.5)
    );
    assert!(data.hamlet_enabled());
    assert_eq!(data.hamlet().width(), 40);
    assert_eq!(data.default_player_profile_id().unwrap().as_str(), "default_player");
}

#[test]
fn different_factions_are_hostile() {
    let data = GameData::from_raw(&canonical()).unwrap();
    let f = |id: &str| FactionId::new(id);
    assert!(data.factions_are_hostile(&f("town"), &f("wild")));
    assert!(!data.factions_are_hostile(&f("town"), &f("town")));
    assert!(data.factions_are_hostile(&f("town"), &f("calm")));
    assert!(data.faction(&f("calm")).unwrap().is_neutral());
}

#[test]
fn default_profile_must_be_there() {
    let mut raw = canonical();
    raw.defaults[0].value = "nobody".to_string();
    let data = GameData::from_raw(&raw).unwrap();
    assert!(matches!(data.default_player_profile_id(), Err(ProfileFault::Unknown)));
    raw.defaults.clear();
    let data = GameData::from_raw(&raw).unwrap();
    assert!(matches!(data.default_player_profile_id(), Err(ProfileFault::Missing)));
    assert!(data.default_value("anything").is_none());
}

#[test]
fn rejects_non_finite_numeric_values() {
    let mut raw = canonical();
    raw.actions[0].mana_cost = held(f64::NAN);
    assert!(told(&raw).contains("finite"));
    let mut raw = canonical();
    raw.actions[2].effects[0].duration_s = held(f64::NAN);
    assert!(told(&raw).contains("finite"));
    let mut raw = canonical();
    raw.actions[1].effects[0].movement_multiplier = held(f64::NAN);
    assert!(told(&raw).contains("finite"));
    let mut raw = canonical();
    raw.movement[0].speed_mps = held(f64::NAN);
    assert!(told(&raw).contains("finite"));
}

#[test]
fn enforces_operation_specific_assignment_domains() {
    let mut raw = canonical();
    raw.actions[0].effects[0].duration_s = held(2.0);
    assert!(told(&raw).contains("zero duration_s"));
    let mut raw = canonical();
    raw.actions[1].effects[0].movement_multiplier = held(1.0);
    assert!(told(&raw).contains("0..1"));
}

#[test]
fn rejects_incoherent_actor_rosters() {
    let mut raw = canonical();
    raw.players[0].skills.clear();
    assert!(told(&raw).contains("requires unassigned skill"));
    let mut raw = canonical();
    raw.players[0].actions[0] = "missing".to_string();
    assert!(told(&raw).contains("unknown action"));
}

#[test]
fn every_refusal_has_its_data() {
    let profile = Actor::Profile(0);
    let cases: Vec<(fn(&mut RawGameData), GameDataFault)> = vec![
        (|r| r.schema_version = 2, GameDataFault::Schema),
        (
            |r| r.skills[1].id = "ch arm".to_string(),
            GameDataFault::InvalidId { label: Label::Skill, at: 1 },
        ),
        (
            |r| r.skills[1].id = "melee".to_string(),
            GameDataFault::DuplicateId { label: Label::Skill, at: 1 },
        ),
        (
            |r| r.effects[0].operation = "tickle".to_string(),
            GameDataFault::UnknownOperation { effect: 0 },
        ),
        (
            |r| r.effects[0].progression = "never".to_string(),
            GameDataFault::UnknownProgression { effect: 0 },
        ),
        (
            |r| r.actions[1].target = "sky".to_string(),
            GameDataFault::UnknownTarget { action: 1 },
        ),
        (
            |r| r.actions[1].effects[0].application = "ring".to_string(),
            GameDataFault::UnknownApplication { action: 1, assignment: 0 },
        ),
        (
            |r| r.mobs[0].speed_variance_ratio = held(0.3),
            GameDataFault::SpeedVariance { mob: 0 },
        ),
        (|r| r.mobs[0].endurance_s = held(0.0), GameDataFault::Endurance { mob: 0 }),
        (|r| r.mobs[0].mode = "shy".to_string(), GameDataFault::UnknownMode { mob: 0 }),
        (|r| r.factions[2].neutral = false, GameDataFault::NeutralFaction),
        (
            |r| r.players[0].faction = "none".to_string(),
            GameDataFault::UnknownFaction { actor: profile },
        ),
        (|r| r.players[0].actions.clear(), GameDataFault::EmptyRoster { actor: profile }),
        (
            |r| {
                let again = r.players[0].skills[0].clone();
                r.players[0].skills.push(again);
            },
            GameDataFault::DuplicateSkill { actor: profile, skill: 1 },
        ),
        (
            |r| r.players[0].skills[0].level = 0,
            GameDataFault::InvalidSkill { actor: profile, skill: 0 },
        ),
        (
            |r| r.players[0].actions[1] = "slash".to_string(),
            GameDataFault::DuplicateAction { actor: profile, action: 1 },
        ),
        (
            |r| {
                r.mobs[0].skills.remove(0);
            },
            GameDataFault::UnassignedSkill { actor: Actor::Mob(0), action: 0, effect: 2 },
        ),
        (
            |r| r.effects.push(effect("idle", "heal", "none")),
            GameDataFault::UnknownSkill { effect: 3 },
        ),
        (
            |r| r.actions[0].mana_cost = held(-1.0),
            GameDataFault::NegativeMana { action: 0 },
        ),
        (|r| r.actions[0].cast_s = held(-1.0), GameDataFault::NegativeTiming { action: 0 }),
        (
            |r| r.actions[0].cooldown_s = held(f64::INFINITY),
            GameDataFault::ActionNotFinite { action: 0 },
        ),
        (
            |r| r.actions[2].effects[0].angle_deg = held(f64::NAN),
            GameDataFault::NumberNotFinite {
                action: 2,
                assignment: 0,
                field: NumberField::Angle,
            },
        ),
        (
            |r| r.actions[0].effects[0].magnitude = held(0.0),
            GameDataFault::DirectDomain { action: 0, assignment: 0 },
        ),
        (
            |r| r.actions[2].effects[0].magnitude = held(2.0),
            GameDataFault::ControlDomain { action: 2, assignment: 0 },
        ),
        (
            |r| r.actions[1].effects[0].duration_s = held(0.0),
            GameDataFault::SnareDomain { action: 1, assignment: 0 },
        ),
        (
            |r| r.actions[0].effects[0].range_m = held(0.0),
            GameDataFault::Reach {
                action: 0,
                assignment: 0,
                fault: ReachFault::SingleTargetRange,
            },
        ),
        (
            |r| {
                let mut twin = r.mobs[0].clone();
                twin.id = "twin".to_string();
                r.mobs.push(twin);
            },
            GameDataFault::SharedSpecies { mob: 1 },
        ),
        (
            |r| r.mobs[0].movement_id = "fly".to_string(),
            GameDataFault::UnknownMovement { mob: 0 },
        ),
        (|r| r.mobs[0].hp = 0, GameDataFault::NonPositiveHp { mob: 0 }),
        (
            |r| r.movement[0].speed_mps = held(0.0),
            GameDataFault::MovementSpeed { movement: 0 },
        ),
    ];
    for (spoil, want) in cases {
        let mut raw = canonical();
        spoil(&mut raw);
        assert_eq!(refusal(&raw), want);
        assert!(!told(&raw).is_empty());
    }
}

#[test]
fn reaches_follow_their_application() {
    let cases: Vec<(&str, f64, f64, f64, ReachFault)> = vec![
        ("single_target", -1.0, 0.0, 0.0, ReachFault::Negative),
        ("cone", 0.0, 0.0, 90.0, ReachFault::ConeRange),
        ("cone", 5.0, 0.0, 400.0, ReachFault::ConeAngle),
        ("aoe", 0.0, 4.0, 0.0, ReachFault::AoeRange),
        ("aoe", 5.0, 0.0, 0.0, ReachFault::AoeRadius),
        ("pbaoe", 5.0, 4.0, 0.0, ReachFault::PbaoeRange),
        ("pbaoe", 0.0, 0.0, 0.0, ReachFault::PbaoeRadius),
    ];
    for (application, range, radius, angle, fault) in cases {
        let mut raw = canonical();
        let e = &mut raw.actions[0].effects[0];
        e.application = application.to_string();
        e.range_m = held(range);
        e.radius_m = held(radius);
        e.angle_deg = held(angle);
        assert_eq!(refusal(&raw), GameDataFault::Reach { action: 0, assignment: 0, fault });
    }
}

#[test]
fn refused_words_are_quoted() {
    let mut raw = canonical();
    raw.effects[0].operation = "ti\"ckle\n".to_string();
    assert_eq!(told(&raw), "unknown effect operation \"ti\\\"ckle\\n\"");
}

fn ids(names: &[&str]) -> Vec<ActionId> {
    names.iter().map(|n| ActionId::new(n)).collect()
}

const KEYS: [&str; 10] = ["1", "2", "3", "4", "5", "6", "7", "8", "q", "tab"];

#[test]
fn defaults_follow_profile_roster() {
    let roster = ids(&["slash", "arrow", "ember", "hobble", "bind", "restore", "befriend"]);
    let binds = KeyBinds::for_default_profile(&roster).unwrap();
    assert_eq!(binds.get(&ActionId::new("slash"), &KEYS), Some("1"));
    assert_eq!(binds.get(&ActionId::new("befriend"), &KEYS), Some("7"));
    assert!(resolve(&binds, &["q"]).is_empty());
    assert_eq!(binds.display(&ActionId::new("arrow")), "2");
    assert_eq!(binds.display(&ActionId::new("dance")), "unbound");
}

#[test]
fn nine_actions_have_too_few_keys() {
    let roster = ids(&["a", "b", "c", "d", "e", "f", "g", "h", "i"]);
    assert!(KeyBinds::for_default_profile(&roster).is_none());
    let mut binds = KeyBinds::new();
    assert_eq!(
        binds.validate_for_default_profile(&roster, &KEYS),
        Err(BindFault::TooManyActions)
    );
}

#[test]
fn assigning_takes_the_key_from_others() {
    let roster = ids(&["slash", "arrow"]);
    let mut binds = KeyBinds::for_default_profile(&roster).unwrap();
    assert!(assign(&mut binds, &roster[1], "1").is_ok());
    assert_eq!(binds.get(&roster[1], &KEYS), Some("1"));
    assert_eq!(binds.get(&roster[0], &KEYS), None);
    let missing = missing_binds(&binds);
    assert_eq!(missing.len(), 1);
    assert!(missing[0].same(&roster[0]));
    assert!(binds.action_for("1").unwrap().same(&roster[1]));
    assert_eq!(reserved_names(), ["Escape", "E", "Q"]);
    assert!(binds.assign(&roster[0], "E").is_err());
    assert!(binds.assign(&roster[0], "Q").is_err());
    let stranger = ids(&["dance"]);
    assert!(binds.assign(&stranger[0], "E").is_err());
    assert!(assign(&mut binds, &stranger[0], "Q").is_err());
    assert_eq!(binds.get(&roster[1], &KEYS), Some("1"));
}

#[test]
fn pressed_keys_are_actions_in_roster_order() {
    let roster = ids(&["slash", "arrow", "ember"]);
    let binds = KeyBinds::for_default_profile(&roster).unwrap();
    let pressed = resolve_pressed(&binds, &roster, &KEYS, &["3", "1"]);
    assert_eq!(pressed.iter().len(), 2);
    assert!(pressed.iter()[0].same(&roster[0]));
    assert!(pressed.iter()[1].same(&roster[2]));
    assert!(PressedActions::none().is_empty());
    assert!(!PressedActions::from_actions(&roster).is_empty());
}

#[test]
fn saved_binds_are_validated() {
    let roster = ids(&["slash", "arrow"]);
    let mut unknown = KeyBinds::for_default_profile(&ids(&["slash", "dance"])).unwrap();
    let fault = unknown.validate_for_default_profile(&roster, &KEYS).unwrap_err();
    assert!(matches!(fault, BindFault::UnknownAction { .. }));
    let mut odd = KeyBinds::for_default_profile(&roster).unwrap();
    assert!(odd.assign(&roster[0], "f99").is_ok());
    let fault = odd.validate_for_default_profile(&roster, &KEYS).unwrap_err();
    assert!(matches!(fault, BindFault::UnknownKey { .. }));
    let mut fresh = KeyBinds::new();
    assert!(fresh.validate_for_default_profile(&roster, &KEYS).is_ok());
    assert_eq!(fresh.get(&roster[0], &KEYS), Some("1"));
}
