use orrun::combat::catalog::mesh_spec;
use orrun::combat::consideration::{con_band, ConBand};
use orrun::combat::levels::{grant_xp, leveling_path, Progress};
use orrun::combat::lock::{click_body_lock, cone_candidates, tab_cycle, Hostile};
use orrun::combat::log::CombatLog;
use orrun::combat::math::{
    bow_hit, bow_range_mult, ember, ember_rank_mult, melee_hit, mend, mitigation, skill_rider, ward, Discipline,
};
use orrun::combat::number::{minus, plus, round53, units, whole, ONE};
use orrun::combat::scenarios::{
    fixture_scenario_1, match_published_rows, oneshot_sanity, published_row, run_all, run_scenario,
    scenario_ids, RowFault,
};
use orrun::combat::sheets::{
    dungeon_xp, mob_sheet, player_stats, resolve_mob_id, wolf_sheet, xp_to_next, MobKind,
};
use orrun::combat::sim::{simulate_fight, Winner};

#[test]
fn con_bands_cover_eq_soft_deltas() {
    assert_eq!(con_band(10, 1).as_str(), "grey");
    assert_eq!(con_band(10, 4), ConBand::Grey);
    assert_eq!(con_band(10, 5), ConBand::Green);
    assert_eq!(con_band(10, 7), ConBand::Green);
    assert_eq!(con_band(10, 8), ConBand::Blue);
    assert_eq!(con_band(10, 9), ConBand::Blue);
    assert_eq!(con_band(10, 10), ConBand::White);
    assert_eq!(con_band(10, 11), ConBand::Yellow);
    assert_eq!(con_band(10, 12), ConBand::Yellow);
    assert_eq!(con_band(10, 13), ConBand::Orange);
    assert_eq!(con_band(10, 14), ConBand::Orange);
    assert_eq!(con_band(10, 15), ConBand::Red);
    assert_eq!(con_band(1, 20), ConBand::Red);
}

#[test]
fn even_con_is_white_not_gold() {
    let (r, g, b) = ConBand::White.rgb();
    assert!(r > 200 && g > 200 && b > 200);
    assert_ne!((r, g, b), (240, 210, 80));
}

#[test]
fn ring_keeps_last_eight_newest_last() {
    let mut log = CombatLog::new();
    for i in 1..=10 {
        log.push(format!("line {i}"));
    }
    let got: Vec<_> = log.lines();
    assert_eq!(
        got,
        ["line 3", "line 4", "line 5", "line 6", "line 7", "line 8", "line 9", "line 10"]
    );
}

#[test]
fn fresh_log_is_empty() {
    let mut log = CombatLog::new();
    assert!(log.is_empty());
    log.push("one".to_string());
    assert!(!log.is_empty());
    assert_eq!(log.lines(), ["one"]);
}

#[test]
fn formulas_truncate_after_the_product() {
    // 8 + 10 * 0.4 = 12, times 1.5 for an armed strike.
    assert_eq!(melee_hit(10, 0, 0, false), 12);
    assert_eq!(melee_hit(10, 0, 0, true), 18);
    // 7 + 10 * 0.4 = 11 within full range.
    assert_eq!(bow_hit(10, 0, 0, false, units(10)), 11);
    // 14 + 10 * 0.5 = 19, times 1.15 from the first rank on.
    assert_eq!(ember(10, 0, 0), 19);
    assert_eq!(ember(10, 0, 1), 21);
    // 25 + 10 * 0.4 = 29 and 20 + 10 * 0.3 = 23.
    assert_eq!(mend(10, 0), 29);
    assert_eq!(ward(10, 0), 23);
}

#[test]
fn armor_softens_but_never_heals() {
    assert!(mitigation(units(40), 10) <= mitigation(units(40), 0));
    assert!(mitigation(units(40), 30) <= mitigation(units(40), 10));
    assert!(mitigation(units(1), 1000) >= 0);
    assert_eq!(mitigation(units(-5), 10), 0);
    assert_eq!(mitigation(ONE << 60, -250), i32::MIN);
    for incoming in [0.3f64, 0.999, 1.0, 2.5, 7.7, 12.0, 19.99, 40.0, 333.3, 1.0e9, 3.0e10] {
        let parts = (incoming * ONE as f64) as i128;
        for armor in [-2_147_483_648, -300, -101, -100, -99, 0, 3, 8, 10, 33, 200, 2_147_483_647] {
            assert_eq!(
                mitigation(parts, armor),
                small(incoming * 100.0 / (100.0 + f64::from(armor)))
            );
        }
    }
}

#[test]
fn bows_lose_force_beyond_their_range() {
    // All of it up to 20 m, a third left at 30 m, none from 35 m on.
    let one = ONE * ONE;
    assert_eq!(bow_range_mult(units(20)), one);
    assert_eq!(bow_range_mult(units(30)), ((5.0f64 / 15.0) * one as f64) as i128);
    assert_eq!(bow_range_mult(units(35)), 0);
    assert!(bow_hit(20, 0, 0, false, units(34)) < bow_hit(20, 0, 0, false, units(5)));
    assert!(ember_rank_mult(10) > ember_rank_mult(1));
}

fn small(x: f64) -> i32 {
    x as i32
}

#[test]
fn formulas_round_as_doubles_do() {
    // (8 + 105 * 0.4) * (1 + 40 * 0.004) is 58 on paper and falls short of it in doubles.
    assert_eq!(melee_hit(105, 40, 1, false), 57);
    let values = [-7, 0, 1, 3, 10, 17, 40, 53, 75, 105, 250, 999, 12_345, 2_147_483_647];
    for a in values {
        let grown = |base: f64, per: f64| base + f64::from(a) * per;
        for skill in values {
            let rider = 1.0 + f64::from(skill) * 0.004;
            assert_eq!(skill_rider(skill), (rider * ONE as f64) as i128);
            for rank in [0, 1, 4, 5, 9, 10] {
                let weapon = if rank >= 5 { 1.1 } else { 1.0 };
                let spell = if rank >= 10 { 1.15 } else { 1.0 };
                let fire = if rank >= 10 {
                    1.3
                } else if rank >= 1 {
                    1.15
                } else {
                    1.0
                };
                for stronger in [false, true] {
                    let strike = if stronger { 1.5 } else { 1.0 };
                    let aimed = if stronger { 1.8 } else { 1.0 };
                    assert_eq!(
                        melee_hit(a, skill, rank, stronger),
                        small(grown(8.0, 0.4) * rider * strike * weapon)
                    );
                    for metres in [0, 20, 21, 22, 27, 29, 34, 35] {
                        let d = f64::from(metres);
                        let share = if d <= 20.0 {
                            1.0
                        } else if d >= 35.0 {
                            0.0
                        } else {
                            (35.0 - d) / (35.0 - 20.0)
                        };
                        assert_eq!(
                            bow_hit(a, skill, rank, stronger, units(metres)),
                            small(grown(7.0, 0.4) * rider * aimed * weapon * share)
                        );
                    }
                }
                assert_eq!(
                    ember(a, skill, rank),
                    small(grown(14.0, 0.5) * fire * spell * rider)
                );
                assert_eq!(mend(a, rank), small(grown(25.0, 0.4) * spell));
                assert_eq!(ward(a, rank), small(grown(20.0, 0.3) * spell));
            }
        }
    }
}

#[test]
fn large_quantities_still_add() {
    // 2^45 and 2^53 units, where one unit is still and no longer told apart from nothing.
    let far = ONE << 45;
    assert_eq!(plus(far, ONE), far + ONE);
    assert_eq!(minus(far, ONE), far - ONE);
    let farther = ONE << 53;
    assert_eq!(plus(farther, ONE), farther);
    assert_eq!(plus(farther, 2 * ONE), farther + 2 * ONE);
}

#[test]
fn discipline_names_read_back() {
    for d in [Discipline::Martial, Discipline::Hunt, Discipline::Arcane] {
        assert_eq!(Discipline::parse(d.as_str()), Some(d));
    }
    assert_eq!(Discipline::parse("cooking"), None);
}

#[test]
fn numbers_add_as_doubles_do() {
    // A tenth of a second, added ten times, falls short of one by what doubles lose.
    let tenth = (0.1f64 * ONE as f64) as i128;
    let mut sum: i128 = 0;
    let mut double = 0.0f64;
    for _ in 0..10 {
        sum = plus(sum, tenth);
        double += 0.1;
    }
    assert_eq!(sum, (double * ONE as f64) as i128);
    assert_ne!(sum, ONE);
    assert_eq!(minus(units(3), units(1)), units(2));
    assert_eq!(whole(units(7)), 7);
    assert_eq!(round53(ONE), ONE);
}

#[test]
fn player_grows_by_level() {
    let one = player_stats(1, Discipline::Martial);
    let nine = player_stats(9, Discipline::Martial);
    assert_eq!(one.hp, 100);
    assert_eq!(one.mana, 50);
    assert_eq!(nine.hp, 196);
    assert_eq!(nine.mana, 98);
    assert!(nine.melee_hit(false) > one.melee_hit(false));
    let far = player_stats(1_000_000, Discipline::Hunt);
    assert_eq!(far.hp, 100 + 12 * 999_999);
    assert_eq!(far.mana, 50 + 6 * 999_999);
    assert_eq!(far.attrs.swift, 10 + 2 * 999_999);
    assert_eq!((far.attrs.might, far.attrs.will, far.attrs.grit), (10, 10, 10));
    assert_eq!((far.ranks.martial, far.ranks.hunt, far.ranks.arcane), (0, 1_000_000, 0));
    assert_eq!((far.weapon_skill, far.skill_cap, far.skill_xp), (5_000_000, 5_000_000, 0));
    assert_eq!(wolf_sheet(1_000_000).hp, 70 + 18 * 999_999);
    assert_eq!(far.bow_hit(true, 0), i32::MAX);
}

#[test]
fn wolves_and_mothers_have_their_sheets() {
    let wolf = mob_sheet("crawler_spider_wolf", Some(1)).unwrap();
    assert_eq!(wolf.kind, MobKind::Wolf);
    assert_eq!(wolf.hp, 70);
    assert_eq!(wolf.damage, 10);
    assert_eq!(wolf.armor, 8);
    let wolf4 = mob_sheet("crawler_spider_wolf", Some(4)).unwrap();
    assert_eq!(wolf4.hp, 124);
    assert_eq!(wolf4.damage, 16);
    assert_eq!(mob_sheet("nobody", None).err().as_deref(), Some("unknown mob: nobody"));
    assert_eq!(resolve_mob_id("Wolf").err().as_deref(), Some("unknown mob: Wolf"));
    assert_eq!(resolve_mob_id("wolf").as_deref(), Ok("crawler_spider_wolf"));
    assert_eq!(resolve_mob_id("male_bandit").as_deref(), Ok("bandit"));
    let ids = [
        "crawler_spider_wolf", "crawler_scorpion", "line_mother", "green_blob", "orc", "tribal",
        "orc_skull", "skeleton_warrior", "skeleton_minion", "skeleton_mage", "yeti", "demon",
        "blue_demon", "bandit",
    ];
    for id in ids {
        assert_eq!(resolve_mob_id(id).as_deref(), Ok(id));
    }
}

#[test]
fn experience_has_nine_steps() {
    assert_eq!(xp_to_next(1), Some(200));
    assert_eq!(xp_to_next(4), Some(550));
    assert_eq!(xp_to_next(9), Some(1500));
    assert_eq!(xp_to_next(10), None);
    assert_eq!(xp_to_next(0), None);
}

#[test]
fn experience_carries_over() {
    let mut p = Progress { level: 1, xp_into: 0 };
    grant_xp(&mut p, 150);
    assert_eq!(p, Progress { level: 1, xp_into: 150 });
    grant_xp(&mut p, 100);
    assert_eq!(p, Progress { level: 2, xp_into: 50 });
}

#[test]
fn road_to_the_tenth_level_takes_127_minutes() {
    let road = leveling_path();
    let last = road.last().unwrap();
    assert_eq!(last.after.level, 10);
    assert_eq!(last.total_minutes, 127);
    assert!(dungeon_xp(0, true).total > dungeon_xp(0, false).total);
}

#[test]
fn scenarios_reproduce_the_published_rows() {
    let run = run_all();
    assert!(run.all_pass);
    assert_eq!(run.rows.len(), 8);
    assert!(match_published_rows(&run.rows).is_empty());
    let want = [
        (Winner::Player, 108, 55, 100),
        (Winner::Mobs, 141, 0, 100),
        (Winner::Player, 216, 5, 100),
        (Winner::Player, 111, 124, 124),
        (Winner::Player, 464, 148, 148),
        (Winner::Player, 324, 94, 196),
        (Winner::Player, 108, 72, 112),
        (Winner::Player, 198, 35, 112),
    ];
    for (i, (winner, ticks, hp, hp_max)) in want.iter().enumerate() {
        let report = &run.rows[i].report;
        assert_eq!(report.winner, *winner, "row {}", i);
        assert_eq!(report.ticks, *ticks, "row {}", i);
        assert_eq!(report.hp_remaining(), *hp, "row {}", i);
        assert_eq!(report.player.max_hp, *hp_max, "row {}", i);
        assert!(run.rows[i].verdict.is_pass(), "row {}", i);
        assert_eq!(published_row(i).hp, *hp);
    }
}

#[test]
fn a_wrong_row_is_told() {
    let run = run_all();
    let mut rows = run.rows;
    rows.pop();
    let faults = match_published_rows(&rows);
    assert_eq!(faults, [RowFault::Missing { row: 7 }]);
}

#[test]
fn scenarios_are_found_by_id() {
    let ids = scenario_ids();
    assert_eq!(ids.len(), 8);
    assert_eq!(ids[0], "1_l1_martial_1wolf");
    for id in ids {
        assert!(run_scenario(id).is_some());
    }
    assert!(run_scenario("9_nothing").is_none());
    let first = fixture_scenario_1();
    assert_eq!(first.report.winner, Winner::Player);
    assert!(oneshot_sanity().passes());
}

#[test]
fn same_fight_ends_the_same_way() {
    let a = simulate_fight(3, Discipline::Hunt, "crawler_scorpion", 1, None, None, None, None);
    let b = simulate_fight(3, Discipline::Hunt, "crawler_scorpion", 1, None, None, None, None);
    let (a, b) = (a.unwrap(), b.unwrap());
    assert_eq!(a.ticks, b.ticks);
    assert_eq!(a.winner, b.winner);
    assert_eq!(a.hp_remaining(), b.hp_remaining());
    let none = simulate_fight(3, Discipline::Hunt, "nobody", 1, None, None, None, None);
    assert_eq!(none.err().as_deref(), Some("unknown mob: nobody"));
}

#[test]
fn tab_goes_round_by_distance() {
    let h = |id: u64, distance_rank: u64, in_cone: bool| Hostile { id, distance_rank, in_cone };
    let hostiles = [h(1, 30, true), h(2, 10, true), h(3, 20, false), h(4, 10, true)];
    assert_eq!(cone_candidates(&hostiles), [2, 4, 1]);
    let mut lock = None;
    let mut seen = Vec::new();
    for _ in 0..3 {
        lock = tab_cycle(lock, &hostiles);
        seen.push(lock.unwrap());
    }
    assert_eq!(seen, [2, 4, 1]);
    assert_eq!(tab_cycle(lock, &hostiles), None);
    assert_eq!(tab_cycle(Some(9), &hostiles), Some(2));
    assert_eq!(tab_cycle(Some(9), &[]), None);
    assert_eq!(click_body_lock(17), 17);
}

#[test]
fn big_roster_has_meshes() {
    for id in ["orc", "tribal", "orc_skull"] {
        let spec = mesh_spec(id).expect(id);
        assert_eq!(spec.id, id);
        assert!(!spec.source.is_empty());
    }
    assert!(mesh_spec("nobody").is_none());
}
