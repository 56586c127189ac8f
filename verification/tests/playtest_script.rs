use orrun::combat::number::{units, ONE};
use orrun::measure::Real;
use orrun::playtest::{
    await_cast, cooldown_runs, cue, judge_roster, judge_trial, read_line, report_path,
    roster_seat, stance, trial, wolf_seat, wounded_hp, Ask, CastWait, Cue, Expect, RosterFault,
    Seen, Stance, TrialFault, CUE_COUNT, TRIAL_COUNT,
};

fn held(v: f64) -> Real {
    Real { bits: v.to_bits() }
}

fn seen() -> Seen {
    Seen {
        accepted: true,
        cast_over: true,
        cooldown_s: held(1.5),
        authored_cooldown_s: held(2.0),
        target_hp_before: held(70.0),
        target_hp: held(62.0),
        player_hp_before: held(50.0),
        player_hp: held(75.0),
        has_status: true,
        can_move: false,
        can_act: false,
        speed_mps: held(5.2),
        effective_speed_mps: held(3.1),
        with_player: true,
    }
}

#[test]
fn script_tries_the_seven_actions() {
    let tried: Vec<&str> = (0..TRIAL_COUNT).map(|i| trial(i).action).collect();
    assert_eq!(
        tried,
        ["slash", "arrow", "restore", "entangle", "stasis", "hobble", "befriend"]
    );
    assert_eq!(trial(4).expect, Expect::Hold);
    assert_eq!(trial(4).detail, "hold disables movement and actions");
}

#[test]
fn presses_casts_and_cooldowns_come_first() {
    let bad = Seen { accepted: false, cast_over: false, ..seen() };
    assert_eq!(judge_trial(Expect::WoundsTarget, bad), Some(TrialFault::Rejected));
    let bad = Seen { cast_over: false, ..seen() };
    assert_eq!(judge_trial(Expect::WoundsTarget, bad), Some(TrialFault::CastTooLong));
    for cooldown in [0.0, -0.0, -1.0, 2.5, f64::NAN] {
        let bad = Seen { cooldown_s: held(cooldown), ..seen() };
        assert_eq!(
            judge_trial(Expect::WoundsTarget, bad),
            Some(TrialFault::CooldownNotStarted)
        );
    }
    let full = Seen { cooldown_s: held(2.0), ..seen() };
    assert_eq!(judge_trial(Expect::WoundsTarget, full), None);
}

#[test]
fn infinities_compare_and_what_is_no_number_does_not() {
    let vast = Seen { target_hp_before: held(f64::INFINITY), ..seen() };
    assert_eq!(judge_trial(Expect::WoundsTarget, vast), None);
    let healed = Seen { player_hp: held(f64::INFINITY), ..seen() };
    assert_eq!(judge_trial(Expect::HealsPlayer, healed), None);
    let back = Seen { effective_speed_mps: held(f64::NEG_INFINITY), ..seen() };
    assert_eq!(judge_trial(Expect::Snare, back), None);
    let still = Seen { target_hp: held(f64::INFINITY), ..vast };
    assert_eq!(judge_trial(Expect::WoundsTarget, still), Some(TrialFault::NotWounded));
    let endless = Seen {
        cooldown_s: held(f64::INFINITY),
        authored_cooldown_s: held(f64::INFINITY),
        ..seen()
    };
    assert_eq!(judge_trial(Expect::WoundsTarget, endless), None);
    let nothing = Seen { target_hp: held(f64::NAN), ..seen() };
    assert_eq!(judge_trial(Expect::WoundsTarget, nothing), Some(TrialFault::NotWounded));
    let nothing = Seen { authored_cooldown_s: held(f64::NAN), ..seen() };
    assert_eq!(
        judge_trial(Expect::WoundsTarget, nothing),
        Some(TrialFault::CooldownNotStarted)
    );
}

#[test]
fn script_sets_up_its_trials() {
    let cues: Vec<Cue> = (0..CUE_COUNT).map(cue).collect();
    assert_eq!(
        cues,
        [
            Cue::SeatRoster,
            Cue::ClearHostiles,
            Cue::SeatWolf { metres: 1 },
            Cue::Steps { count: 1 },
            Cue::Lock { idx: 0 },
            Cue::Try { trial: 0 },
            Cue::AwaitCooldown { trial: 0 },
            Cue::Try { trial: 1 },
            Cue::ClearHostiles,
            Cue::Wound { points: 20 },
            Cue::Try { trial: 2 },
            Cue::SeatWolf { metres: 10 },
            Cue::Lock { idx: 0 },
            Cue::Try { trial: 3 },
            Cue::Try { trial: 4 },
            Cue::Steps { count: 30 },
            Cue::Try { trial: 5 },
            Cue::Try { trial: 6 },
        ]
    );
    assert_eq!(stance(), Stance { x: 0, z: 0, facing_x: ONE, facing_z: 0 });
    for index in [0, 1, 3, 7, 31] {
        let seat = roster_seat(index);
        assert_eq!((seat.idx, seat.x), (index, ONE));
        assert_eq!(seat.z, (f64::from(index) * 0.1 * ONE as f64) as i128);
    }
    assert_eq!((wolf_seat(10).idx, wolf_seat(10).x, wolf_seat(10).z), (0, units(10), 0));
    assert_eq!(wounded_hp(units(100), 20), units(80));
    assert_eq!(judge_roster(0, 0), Some(RosterFault::Empty));
    assert_eq!(judge_roster(12, 11), Some(RosterFault::NotSeated));
    assert_eq!(judge_roster(12, 12), None);
}

#[test]
fn casts_are_awaited_for_five_seconds() {
    assert_eq!(await_cast(false, units(9)), CastWait::Over);
    let mut elapsed = 0.0f64;
    let mut steps = 0;
    while elapsed < 5.0 {
        elapsed += 0.1;
        steps += 1;
    }
    let mut waited: i128 = 0;
    let mut taken = 0;
    while let CastWait::Step { elapsed_s } = await_cast(true, waited) {
        waited = elapsed_s;
        taken += 1;
    }
    assert_eq!(taken, steps);
    assert_eq!(await_cast(true, waited), CastWait::TooLong);
    assert!(cooldown_runs(held(0.1)));
    assert!(!cooldown_runs(held(0.0)));
    assert!(!cooldown_runs(held(f64::NAN)));
}

#[test]
fn reports_have_a_place() {
    assert_eq!(report_path(&["--report", "out.json"], Some(1)), "out.json");
    assert_eq!(report_path(&[], None), "playtester-report.json");
}

#[test]
fn outcomes_must_show() {
    assert_eq!(judge_trial(Expect::WoundsTarget, seen()), None);
    let bad = Seen { target_hp: held(70.0), ..seen() };
    assert_eq!(judge_trial(Expect::WoundsTarget, bad), Some(TrialFault::NotWounded));
    assert_eq!(judge_trial(Expect::HealsPlayer, seen()), None);
    let bad = Seen { player_hp: held(50.0), ..seen() };
    assert_eq!(judge_trial(Expect::HealsPlayer, bad), Some(TrialFault::NotHealed));
    let bare = Seen { has_status: false, ..seen() };
    for expect in [Expect::Root, Expect::Hold, Expect::Snare, Expect::Charm] {
        assert_eq!(judge_trial(expect, bare), Some(TrialFault::StatusMissing));
    }
    let moving = Seen { can_move: true, ..seen() };
    assert_eq!(judge_trial(Expect::Root, moving), Some(TrialFault::StillMoves));
    assert_eq!(judge_trial(Expect::Hold, moving), Some(TrialFault::StillMoves));
    assert_eq!(judge_trial(Expect::Root, seen()), Some(TrialFault::CannotAct));
    let acting = Seen { can_act: true, ..seen() };
    assert_eq!(judge_trial(Expect::Root, acting), None);
    assert_eq!(judge_trial(Expect::Hold, acting), Some(TrialFault::StillActs));
    assert_eq!(judge_trial(Expect::Hold, seen()), None);
    assert_eq!(judge_trial(Expect::Snare, seen()), None);
    let fast = Seen { effective_speed_mps: held(5.2), ..seen() };
    assert_eq!(judge_trial(Expect::Snare, fast), Some(TrialFault::NotSlowed));
    assert_eq!(judge_trial(Expect::Charm, seen()), None);
    let foe = Seen { with_player: false, ..seen() };
    assert_eq!(judge_trial(Expect::Charm, foe), Some(TrialFault::NotCharmed));
}

#[test]
fn lines_name_a_script_and_a_report() {
    assert_eq!(read_line(&[]), Ask::Usage);
    assert_eq!(read_line(&["--hooks"]), Ask::Usage);
    assert_eq!(read_line(&["--report", "out.json"]), Ask::Usage);
    assert_eq!(read_line(&["--hooks", "other"]), Ask::Unknown(1));
    assert_eq!(read_line(&["--hooks", "m5_actions"]), Ask::Script { report: None });
    assert_eq!(
        read_line(&["--report", "out.json", "--hooks", "m5_actions"]),
        Ask::Script { report: Some(1) }
    );
}
