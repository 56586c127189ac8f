//! What holds of data that was not refused.

use crate::gamedata::faults::{
    action_roster_fault, actions_fault, actions_of, actor_fits, assignments_fault, domain_fault,
    faction_of, found, has_action, has_skill, id_fault, id_valid, ids_of, load_fault,
    mob_words_fault, mobs_fault, movement_fault, needs_fault, number_fault, place_in, positive,
    profiles_fault, roster_fault, seen_before, skill_roster_fault, skills_of, variance_ok, Actor,
    Label,
};
use crate::gamedata::kinds::{application_of, operation_of, Application, EffectOperation};
use crate::gamedata::load::GameData;
use crate::gamedata::raw::{RawActionEffect, RawGameData};
use crate::measure::Real;
use vstd::prelude::*;

verus! {

proof fn lemma_ids_clean(ids: Seq<Seq<char>>, label: Label, from: int, i: int)
    requires
        id_fault(ids, label, from) is None,
        0 <= from <= i < ids.len(),
    ensures
        id_valid(ids[i]),
        !seen_before(ids, i),
    decreases i - from,
{
    if from < i {
        lemma_ids_clean(ids, label, from + 1, i);
    }
}

/// In accepted data every id is well formed, and no two records of a list share one.
pub proof fn law_ids_are_unique(raw: RawGameData, label: Label, i: int, j: int)
    requires
        load_fault(raw) is None,
        0 <= i < j < ids_of(raw, label).len(),
    ensures
        id_valid(ids_of(raw, label)[i]),
        id_valid(ids_of(raw, label)[j]),
        ids_of(raw, label)[i] != ids_of(raw, label)[j],
{
    let ids = ids_of(raw, label);
    assert(id_fault(ids, label, 0) is None) by {
        match label {
            Label::Skill => {},
            Label::Faction => {},
            Label::Effect => {},
            Label::Action => {},
            Label::Profile => {},
            Label::Mob => {},
            Label::Movement => {},
        }
    }
    lemma_ids_clean(ids, label, 0, i);
    lemma_ids_clean(ids, label, 0, j);
    if ids[i] == ids[j] {
        assert(seen_before(ids, j));
    }
}

proof fn lemma_skill_roster(raw: RawGameData, actor: Actor, from: int, k: int)
    requires
        skill_roster_fault(raw, actor, from) is None,
        0 <= from <= k < skills_of(raw, actor).len(),
    ensures
        found(raw, Label::Skill, skills_of(raw, actor)[k].id@) is Some,
        skills_of(raw, actor)[k].level > 0,
        !has_skill(skills_of(raw, actor), skills_of(raw, actor)[k].id@, k),
    decreases k - from,
{
    if from < k {
        lemma_skill_roster(raw, actor, from + 1, k);
    }
}

proof fn lemma_action_roster(raw: RawGameData, actor: Actor, from: int, k: int)
    requires
        action_roster_fault(raw, actor, from) is None,
        0 <= from <= k < actions_of(raw, actor).len(),
    ensures
        ({
            let a = found(raw, Label::Action, actions_of(raw, actor)[k]@);
            a is Some && needs_fault(raw, actor, k as usize, a->0, 0) is None
        }),
        !has_action(actions_of(raw, actor), actions_of(raw, actor)[k]@, k),
    decreases k - from,
{
    if from < k {
        lemma_action_roster(raw, actor, from + 1, k);
    }
}

proof fn lemma_needs(raw: RawGameData, actor: Actor, place: usize, action: int, from: int, e: int)
    requires
        needs_fault(raw, actor, place, action, from) is None,
        0 <= from <= e < raw.actions@[action].effects@.len(),
    ensures
        ({
            let f = found(raw, Label::Effect, raw.actions@[action].effects@[e].effect_id@);
            &&& f is Some
            &&& has_skill(
                skills_of(raw, actor),
                raw.effects@[f->0].skill_id@,
                skills_of(raw, actor).len() as int,
            )
        }),
    decreases e - from,
{
    if from < e {
        lemma_needs(raw, actor, place, action, from + 1, e);
    }
}

proof fn lemma_profile(raw: RawGameData, from: int, i: int)
    requires
        profiles_fault(raw, from) is None,
        0 <= from <= i < raw.players@.len(),
        raw.players@.len() <= usize::MAX,
    ensures
        found(raw, Label::Faction, raw.players@[i].faction@) is Some,
        raw.players@[i].actions@.len() > 0,
        roster_fault(raw, Actor::Profile(i as usize)) is None,
    decreases i - from,
{
    if from < i {
        lemma_profile(raw, from + 1, i);
    }
}

proof fn lemma_mob(raw: RawGameData, from: int, i: int)
    requires
        mobs_fault(raw, from) is None,
        0 <= from <= i < raw.mobs@.len(),
        raw.mobs@.len() <= usize::MAX,
    ensures
        found(raw, Label::Faction, raw.mobs@[i].faction@) is Some,
        found(raw, Label::Movement, raw.mobs@[i].movement_id@) is Some,
        raw.mobs@[i].actions@.len() > 0,
        raw.mobs@[i].hp > 0,
        roster_fault(raw, Actor::Mob(i as usize)) is None,
    decreases i - from,
{
    if from < i {
        lemma_mob(raw, from + 1, i);
    }
}

/// In accepted data every actor's faction is known, its roster of actions is not empty
/// and names each action once, every one of its skills is known and of a positive
/// level, and every action it has is known.
pub proof fn law_actor_references_resolve(raw: RawGameData, actor: Actor, s: int, k: int)
    requires
        load_fault(raw) is None,
        actor_fits(raw, actor),
        0 <= s < skills_of(raw, actor).len(),
        0 <= k < actions_of(raw, actor).len(),
        raw.players@.len() <= usize::MAX,
        raw.mobs@.len() <= usize::MAX,
    ensures
        found(raw, Label::Faction, faction_of(raw, actor)) is Some,
        found(raw, Label::Skill, skills_of(raw, actor)[s].id@) is Some,
        skills_of(raw, actor)[s].level > 0,
        found(raw, Label::Action, actions_of(raw, actor)[k]@) is Some,
        !has_action(actions_of(raw, actor), actions_of(raw, actor)[k]@, k),
{
    match actor {
        Actor::Profile(i) => {
            lemma_profile(raw, 0, i as int);
        },
        Actor::Mob(i) => {
            lemma_mob(raw, 0, i as int);
        },
    }
    lemma_skill_roster(raw, actor, 0, s);
    lemma_action_roster(raw, actor, 0, k);
}

/// In accepted data an actor has every skill that the effects of its actions draw on.
pub proof fn law_actor_has_needed_skills(raw: RawGameData, actor: Actor, k: int, e: int)
    requires
        load_fault(raw) is None,
        actor_fits(raw, actor),
        0 <= k < actions_of(raw, actor).len(),
        raw.players@.len() <= usize::MAX,
        raw.mobs@.len() <= usize::MAX,
        ({
            let a = found(raw, Label::Action, actions_of(raw, actor)[k]@);
            a is Some ==> 0 <= e < raw.actions@[a->0].effects@.len()
        }),
    ensures
        ({
            let a = found(raw, Label::Action, actions_of(raw, actor)[k]@)->0;
            let f = found(raw, Label::Effect, raw.actions@[a].effects@[e].effect_id@);
            &&& f is Some
            &&& has_skill(
                skills_of(raw, actor),
                raw.effects@[f->0].skill_id@,
                skills_of(raw, actor).len() as int,
            )
        }),
{
    match actor {
        Actor::Profile(i) => {
            lemma_profile(raw, 0, i as int);
        },
        Actor::Mob(i) => {
            lemma_mob(raw, 0, i as int);
        },
    }
    lemma_action_roster(raw, actor, 0, k);
    let a = found(raw, Label::Action, actions_of(raw, actor)[k]@)->0;
    lemma_needs(raw, actor, k as usize, a, 0, e);
}

proof fn lemma_action_clean(raw: RawGameData, from: int, a: int)
    requires
        actions_fault(raw, from) is None,
        0 <= from <= a < raw.actions@.len(),
    ensures
        raw.actions@[a].mana_cost.finite() && raw.actions@[a].mana_cost.place() >= 0,
        raw.actions@[a].cast_s.finite() && raw.actions@[a].cast_s.place() >= 0,
        raw.actions@[a].cooldown_s.finite() && raw.actions@[a].cooldown_s.place() >= 0,
        assignments_fault(raw, a as usize, 0) is None,
    decreases a - from,
{
    if from < a {
        lemma_action_clean(raw, from + 1, a);
    }
}

proof fn lemma_assignment_clean(raw: RawGameData, action: usize, from: int, e: int)
    requires
        assignments_fault(raw, action, from) is None,
        0 <= from <= e < raw.actions@[action as int].effects@.len(),
    ensures
        ({
            let x = raw.actions@[action as int].effects@[e];
            let f = found(raw, Label::Effect, x.effect_id@);
            &&& f is Some
            &&& domain_fault(
                x,
                operation_of(raw.effects@[f->0].operation@)->0,
                application_of(x.application@)->0,
                action,
                e as usize,
            ) is None
        }),
    decreases e - from,
{
    if from < e {
        lemma_assignment_clean(raw, action, from + 1, e);
    }
}

/// In accepted data every cost and time of an action is a finite number and not
/// negative, and every number of its assignments is finite.
pub proof fn law_action_numbers_are_sound(raw: RawGameData, a: int, e: int)
    requires
        load_fault(raw) is None,
        0 <= a < raw.actions@.len() <= usize::MAX,
        0 <= e < raw.actions@[a].effects@.len(),
    ensures
        raw.actions@[a].mana_cost.finite() && raw.actions@[a].mana_cost.place() >= 0,
        raw.actions@[a].cast_s.finite() && raw.actions@[a].cast_s.place() >= 0,
        raw.actions@[a].cooldown_s.finite() && raw.actions@[a].cooldown_s.place() >= 0,
        found(raw, Label::Effect, raw.actions@[a].effects@[e].effect_id@) is Some,
        number_fault(raw.actions@[a].effects@[e]) is None,
{
    lemma_action_clean(raw, 0, a);
    lemma_assignment_clean(raw, a as usize, 0, e);
}

proof fn lemma_mob_words(raw: RawGameData, from: int, i: int)
    requires
        mob_words_fault(raw.mobs@, from) is None,
        0 <= from <= i < raw.mobs@.len(),
    ensures
        variance_ok(raw.mobs@[i].speed_variance_ratio),
        positive(raw.mobs@[i].endurance_s),
    decreases i - from,
{
    if from < i {
        lemma_mob_words(raw, from + 1, i);
    }
}

proof fn lemma_movement_clean(raw: RawGameData, from: int, i: int)
    requires
        movement_fault(raw, from) is None,
        0 <= from <= i < raw.movement@.len(),
    ensures
        positive(raw.movement@[i].speed_mps),
    decreases i - from,
{
    if from < i {
        lemma_movement_clean(raw, from + 1, i);
    }
}

/// In accepted data every mob is alive, tires after a positive time and varies its
/// speed by a fifth at most, and every way to move has a positive speed.
pub proof fn law_mob_numbers_are_sound(raw: RawGameData, i: int, m: int)
    requires
        load_fault(raw) is None,
        0 <= i < raw.mobs@.len() <= usize::MAX,
        0 <= m < raw.movement@.len(),
    ensures
        raw.mobs@[i].hp > 0,
        variance_ok(raw.mobs@[i].speed_variance_ratio),
        positive(raw.mobs@[i].endurance_s),
        positive(raw.movement@[m].speed_mps),
{
    lemma_mob(raw, 0, i);
    lemma_mob_words(raw, 0, i);
    lemma_movement_clean(raw, 0, m);
}

proof fn lemma_placed(ids: Seq<Seq<char>>, id: Seq<char>, from: int)
    requires
        place_in(ids, id, from) is Some,
        from >= 0,
    ensures
        from <= place_in(ids, id, from)->0 < ids.len(),
        ids[place_in(ids, id, from)->0] == id,
    decreases ids.len() - from,
{
    if from < ids.len() && ids[from] != id {
        lemma_placed(ids, id, from + 1);
    }
}

/// Every profile of loaded data belongs to a faction that the data has.
pub proof fn law_loaded_profile_has_faction(data: &GameData, raw: RawGameData, i: int)
    requires
        load_fault(raw) is None,
        data.reads(raw),
        0 <= i < data.player_profiles@.len() <= usize::MAX,
    ensures
        data.has_faction(data.player_profiles@[i].faction@),
{
    lemma_profile(raw, 0, i);
    let f = raw.players@[i].faction@;
    lemma_placed(ids_of(raw, Label::Faction), f, 0);
    let k = place_in(ids_of(raw, Label::Faction), f, 0)->0;
    assert(crate::gamedata::load::profile_read(data.player_profiles@[i], raw.players@[i]));
    assert(crate::gamedata::load::faction_read(data.factions@[k], raw.factions@[k]));
    assert(data.factions@[k].id@ == f);
}

/// The numbers of an assignment that is let in make sense for what its effect does. Damage and
/// healing have a strength and are done at once; roots, holds and charms last; a snare lasts
/// and leaves a part of the speed. All but a snare leave the speed as it is.
pub proof fn law_assignments_fit_their_effect(
    x: RawActionEffect,
    operation: EffectOperation,
    application: Application,
    action: usize,
    assignment: usize,
)
    requires
        domain_fault(x, operation, application, action, assignment) is None,
    ensures
        x.magnitude.finite() && x.range_m.finite() && x.radius_m.finite() && x.angle_deg.finite()
            && x.duration_s.finite() && x.movement_multiplier.finite(),
        x.magnitude.place() > 0,
        operation == EffectOperation::DirectDamage || operation == EffectOperation::Heal
            ==> x.duration_s.place() == 0,
        operation != EffectOperation::DirectDamage && operation != EffectOperation::Heal
            ==> x.duration_s.place() > 0 && x.magnitude.place() == 0x3ff0_0000_0000_0000,
        operation == EffectOperation::Snare ==> 0 < x.movement_multiplier.place()
            < 0x3ff0_0000_0000_0000,
        operation != EffectOperation::Snare ==> x.movement_multiplier.place()
            == 0x3ff0_0000_0000_0000,
{
}

/// The reach of an assignment that is let in makes sense for how it spreads: what is aimed has
/// a range, a cone an angle up to a full turn, an area a radius, and an area about its source
/// no range. Nothing reaches less far than nothing.
pub proof fn law_assignments_fit_their_spread(
    x: RawActionEffect,
    operation: EffectOperation,
    application: Application,
    action: usize,
    assignment: usize,
)
    requires
        domain_fault(x, operation, application, action, assignment) is None,
    ensures
        x.range_m.place() >= 0,
        x.radius_m.place() >= 0,
        application == Application::Pbaoe <==> x.range_m.place() == 0,
        application == Application::Cone ==> 0 < x.angle_deg.place() <= 0x4076_8000_0000_0000,
        application == Application::Aoe || application == Application::Pbaoe ==> x.radius_m.place()
            > 0,
{
}

/// An assignment whose numbers make sense is let in.
pub proof fn law_sound_assignments_are_let_in(
    x: RawActionEffect,
    operation: EffectOperation,
    application: Application,
    action: usize,
    assignment: usize,
)
    requires
        x.magnitude.finite() && x.range_m.finite() && x.radius_m.finite() && x.angle_deg.finite()
            && x.duration_s.finite() && x.movement_multiplier.finite(),
        x.magnitude.place() == 0x3ff0_0000_0000_0000,
        (operation == EffectOperation::DirectDamage || operation == EffectOperation::Heal) <==>
            x.duration_s.place() == 0,
        x.duration_s.place() >= 0,
        operation == EffectOperation::Snare ==> 0 < x.movement_multiplier.place()
            < 0x3ff0_0000_0000_0000,
        operation != EffectOperation::Snare ==> x.movement_multiplier.place()
            == 0x3ff0_0000_0000_0000,
        x.range_m.place() >= 0,
        application == Application::Pbaoe <==> x.range_m.place() == 0,
        0 < x.angle_deg.place() <= 0x4076_8000_0000_0000,
        x.radius_m.place() > 0,
    ensures
        domain_fault(x, operation, application, action, assignment) is None,
{
}

/// A mob's speed varies by a fifth at the most where its variance is let in.
pub proof fn law_variance_is_a_fifth_at_most(r: Real)
    ensures
        variance_ok(r) <==> r.finite() && 0 <= r.place() <= 0x3fc9_9999_9999_999a,
{
}

} // verus!
