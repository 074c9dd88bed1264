use umasim::error::SimError;
use umasim::game::ramen::action::{Operation, RamenAction, TrainingType};
use umasim::game::ramen::policy::{
    argmax_index, decide_special, decide_super_ramen, decide_train, explain_gate, find_operation,
    find_train_gate, fixed_region_selection, fixed_super_ramen_selection, free_race_gate_index,
    free_race_gate_reason, game_race_grade, hidden_used, race_pressure, race_turn_qualified,
    remaining_race_slots, status_gain_points, tally_region, PolicyGates, RacePressure, RegionTally,
    TrainGate, Wanted,
};
use umasim::game::ramen::RamenGame;
use umasim::gamedata::constants::GameConstants;
use umasim::gamedata::ramen::{FinalsEffect, RamenScenarioData, RegionEffect};
use umasim::gamedata::uma::{FreeRaceData, UmaData};

/// Grades by turn: G1 wherever a test asks for it, G2 elsewhere.
fn constants() -> GameConstants {
    let mut grades = vec![2; 72];
    for turn in [47usize, 50, 51, 53, 55, 56, 58, 59] {
        grades[turn] = 1;
    }
    GameConstants {
        race_grades: grades,
        five_status_final_score: (0..1201).map(|x| x * x / 100).collect(),
        ..Default::default()
    }
}

fn span(start_turn: u32, end_turn: u32, count: u32, grade: Option<u32>) -> FreeRaceData {
    let mut free = FreeRaceData {
        start_turn,
        end_turn,
        count,
        grade,
        mask: 0,
    };
    free.update_turn_mask(&constants());
    free
}

fn uma_with(spans: Vec<FreeRaceData>) -> UmaData {
    UmaData {
        free_races: spans,
        ..Default::default()
    }
}

fn game_at(turn: i32) -> RamenGame {
    let mut game = RamenGame::default();
    game.base.turn = turn;
    game.base.uma.vital = 100;
    game.base.uma.motivation = 4;
    game
}

fn train_actions() -> Vec<RamenAction> {
    vec![
        RamenAction::new(Operation::Train(TrainingType::Speed)),
        RamenAction::new(Operation::Train(TrainingType::Stamina)),
        RamenAction::new(Operation::Train(TrainingType::Power)),
        RamenAction::new(Operation::Train(TrainingType::Guts)),
        RamenAction::new(Operation::Train(TrainingType::Wisdom)),
        RamenAction::new(Operation::Rest),
        RamenAction::new(Operation::NormalOuting),
        RamenAction::new(Operation::Clinic),
    ]
}

fn train_actions_with_race() -> Vec<RamenAction> {
    let mut acts = train_actions();
    acts.push(RamenAction::new(Operation::Race));
    acts
}

fn chosen(game: &RamenGame, scores: Vec<i64>) -> Operation {
    let actions = train_actions();
    let idx = decide_train(
        game,
        &uma_with(vec![]),
        &PolicyGates::default(),
        &actions,
        None,
        &scores,
    )
    .unwrap();
    actions[idx].operation
}

#[test]
fn test_fixed_region_selection() {
    assert_eq!(fixed_region_selection(0), Ok([0, 1, 2]));
    assert_eq!(fixed_region_selection(1), Ok([5, 6, 7]));
    assert_eq!(fixed_region_selection(2), Ok([10, 11, 12]));
    assert!(fixed_region_selection(3).is_err());
}

#[test]
fn test_fixed_super_ramen_selection() {
    let data = RamenScenarioData {
        finals_effect: FinalsEffect {
            training_limit_options: vec![vec![0, 1, 3, 4], vec![0, 1, 2, 4], vec![0, 2, 3, 4]],
            ..Default::default()
        },
        ..Default::default()
    };
    assert_eq!(fixed_super_ramen_selection(&data), Ok(vec![0, 1, 2, 4]));
    assert_eq!(
        fixed_super_ramen_selection(&RamenScenarioData::default()),
        Err(SimError::ChoiceOutOfRange { selection: 1, len: 0 })
    );
}

#[test]
fn test_decide_super_ramen_finds_option_two() {
    let actions = vec![
        RamenAction::super_ramen_select(0),
        RamenAction::super_ramen_select(2),
        RamenAction::super_ramen_select(1),
    ];
    let idx = decide_super_ramen(&actions).unwrap();
    assert_eq!(idx, 2);
    assert!(matches!(actions[idx].operation, Operation::SuperRamenSelect(1)));
    assert_eq!(decide_super_ramen(&vec![]), Err(SimError::NoCandidates));
    assert_eq!(
        decide_super_ramen(&vec![RamenAction::super_ramen_select(0)]),
        Err(SimError::NoSuchOption)
    );
}

#[test]
fn test_gate_ill_clinic() {
    let mut game = game_at(10);
    game.base.uma.flags.ill = true;
    game.base.uma.vital = 100;
    assert_eq!(chosen(&game, vec![9, 8, 7, 6, 5, 4, 3, 2]), Operation::Clinic);
}

#[test]
fn test_gate_vital_low_rest() {
    let mut game = game_at(10);
    game.base.uma.vital = 30;
    assert_eq!(chosen(&game, vec![9, 8, 7, 6, 5, 4, 3, 2]), Operation::Rest);
}

#[test]
fn test_gate_motivation_low_outing() {
    let mut game = game_at(10);
    game.base.uma.motivation = 2;
    game.base.uma.vital = 100;
    assert_eq!(chosen(&game, vec![9, 8, 7, 6, 5, 4, 3, 2]), Operation::NormalOuting);
}

#[test]
fn test_train_selector_deterministic() {
    let mut game = game_at(10);
    game.base.uma.motivation = 4;
    game.base.uma.vital = 80;
    let scores = vec![1, 7, 3, 7, 2, 0, 0, 0];
    let first = chosen(&game, scores.clone());
    let second = chosen(&game, scores);
    assert_eq!(first, second);
    assert_eq!(first, Operation::Train(TrainingType::Stamina));
}

#[test]
fn test_special_selector_min_hidden() {
    let actions = vec![
        RamenAction::special_select(0, [2, 0, 0]),
        RamenAction::special_select(0, [0, 1, 0]),
        RamenAction::special_select(0, [0, 0, 1]),
        RamenAction::special_select(0, [0, 0, 0]),
    ];
    let idx = decide_special(&actions).unwrap();
    assert_eq!(actions[idx].special_targets, Some([0, 0, 0]));
    assert_eq!(decide_special(&vec![]), Err(SimError::NoCandidates));
    assert_eq!(hidden_used(&actions[0]), 2);
    assert_eq!(hidden_used(&RamenAction::ramen_select(Some(3))), 0);
}

#[test]
fn test_remaining_race_slots() {
    let free = span(11, 26, 1, None);
    for (turn, expect) in [(0, 14), (13, 14), (20, 7), (25, 2), (26, 1), (27, 0)] {
        assert_eq!(remaining_race_slots(turn, &free), expect);
    }
}

#[test]
fn test_free_race_gate() {
    let actions = train_actions_with_race();
    let data = uma_with(vec![span(12, 26, 1, None)]);
    let mut game = game_at(20);
    assert_eq!(free_race_gate_index(&game, &data, &actions, 1), None);

    game.base.turn = 25;
    let idx = free_race_gate_index(&game, &data, &actions, 1).unwrap();
    assert_eq!(actions[idx].operation, Operation::Race);

    game.base.uma.set_race(20);
    assert_eq!(free_race_gate_index(&game, &data, &actions, 1), None);

    let plain = game_at(25);
    assert_eq!(free_race_gate_index(&plain, &uma_with(vec![]), &actions, 1), None);
}

#[test]
fn test_race_turn_qualified() {
    let data = uma_with(vec![span(46, 59, 3, Some(1))]);
    let game = game_at(50);
    let free = game.base.uma.find_free_race(&data, 50).unwrap();
    assert_eq!(free.grade, Some(1));
    for turn in [46, 48, 49, 52, 54, 57] {
        assert!(!race_turn_qualified(turn, free), "turn {turn}");
    }
    for turn in [47, 50, 51, 53, 55, 56, 58, 59] {
        assert!(race_turn_qualified(turn, free), "turn {turn}");
    }
}

#[test]
fn test_free_race_gate_skips_nonqualified_turn() {
    let actions = train_actions_with_race();
    let data = uma_with(vec![span(46, 59, 3, Some(1))]);
    let mut game = game_at(57);
    game.base.uma.set_race(47);
    assert_eq!(free_race_gate_index(&game, &data, &actions, 1), None);

    game.base.turn = 58;
    let idx = free_race_gate_index(&game, &data, &actions, 1).unwrap();
    assert_eq!(actions[idx].operation, Operation::Race);
}

#[test]
fn test_free_race_gate_quiet_after_done() {
    let actions = train_actions_with_race();
    let data = uma_with(vec![span(46, 59, 3, Some(1))]);
    let mut game = game_at(52);
    for turn in [47, 50, 51] {
        game.base.uma.set_race(turn);
    }
    for turn in 52..=59 {
        game.base.turn = turn;
        assert_eq!(free_race_gate_index(&game, &data, &actions, 1), None, "turn {turn}");
    }
}

#[test]
fn test_free_race_gate_giveup_recorded() {
    let actions = train_actions_with_race();
    let data = uma_with(vec![span(46, 59, 3, Some(1))]);
    let mut game = game_at(59);
    game.base.uma.set_race(47);
    assert_eq!(free_race_gate_index(&game, &data, &actions, 1), None);

    let reason = free_race_gate_reason(&game, &data);
    assert!(reason.contains("缺2场"), "{reason}");
    assert!(reason.contains("摆烂"), "{reason}");

    game.base.turn = 54;
    let reason = free_race_gate_reason(&game, &data);
    assert!(reason.contains("等级不满足"), "{reason}");
}

#[test]
fn test_free_race_gate_oguri_two_intervals() {
    let actions = train_actions_with_race();
    let data = uma_with(vec![span(12, 23, 1, None), span(48, 59, 2, Some(1))]);
    let mut game = game_at(12);

    let free2 = game.base.uma.find_free_race(&data, 48).unwrap();
    let slots2 = remaining_race_slots(48, free2);
    assert!(slots2 >= 2);
    assert!(slots2 < 12);

    let first_gate = (12..=23)
        .find(|&turn| {
            game.base.turn = turn;
            free_race_gate_index(&game, &data, &actions, 1).is_some()
        })
        .unwrap();
    game.base.turn = first_gate;
    let idx = free_race_gate_index(&game, &data, &actions, 1).unwrap();
    assert_eq!(actions[idx].operation, Operation::Race);

    game.base.uma.set_race(first_gate);
    game.base.turn = 23;
    assert_eq!(free_race_gate_index(&game, &data, &actions, 1), None);

    let second_gate = (48..=59)
        .find(|&turn| {
            game.base.turn = turn;
            free_race_gate_index(&game, &data, &actions, 1).is_some()
        })
        .unwrap();
    game.base.turn = second_gate;
    let idx = free_race_gate_index(&game, &data, &actions, 1).unwrap();
    assert_eq!(actions[idx].operation, Operation::Race);
}

#[test]
fn test_free_race_gate_without_race_candidate() {
    let data = uma_with(vec![span(12, 23, 1, None), span(48, 59, 2, Some(1))]);
    let game = game_at(23);
    assert_eq!(free_race_gate_index(&game, &data, &train_actions(), 1), None);
}

#[test]
fn the_pressure_of_races_follows_the_turns_left() {
    let data = uma_with(vec![span(46, 59, 3, Some(1))]);
    let mut game = game_at(54);
    assert_eq!(race_pressure(&game, &data), RacePressure::Absent);
    game.base.turn = 55;
    assert_eq!(race_pressure(&game, &data), RacePressure::Pressing { need: 3, remain: 4 });
    game.base.turn = 58;
    assert_eq!(race_pressure(&game, &data), RacePressure::GivenUp { need: 3, remain: 2 });
    game.base.turn = 20;
    assert_eq!(race_pressure(&game, &data), RacePressure::Absent);
}

#[test]
fn the_demand_stays_within_reach_while_turns_are_left_free() {
    let actions = train_actions_with_race();
    let data = uma_with(vec![span(46, 59, 3, Some(1))]);
    let mut game = game_at(46);
    for turn in 46..=59 {
        game.base.turn = turn;
        if free_race_gate_index(&game, &data, &actions, 0).is_some() {
            game.base.uma.set_race(turn);
        }
    }
    assert_eq!(game.base.uma.count_free_race(&data.free_races[0]), 3);
}

#[test]
fn races_come_before_ailments_and_these_before_rest() {
    let actions = train_actions_with_race();
    let data = uma_with(vec![span(12, 26, 1, None)]);
    let gates = PolicyGates::default();
    let mut game = game_at(26);
    game.base.uma.flags.ill = true;
    game.base.uma.vital = 10;
    game.base.uma.motivation = 1;
    assert_eq!(
        find_train_gate(&game, &data, &gates, &actions, None),
        Some((8, TrainGate::FreeRace))
    );
    game.base.uma.set_race(20);
    assert_eq!(
        find_train_gate(&game, &data, &gates, &actions, None),
        Some((7, TrainGate::Clinic))
    );
    game.base.uma.flags.ill = false;
    assert_eq!(
        find_train_gate(&game, &data, &gates, &actions, None),
        Some((5, TrainGate::Rest { threshold: 45 }))
    );
    // a bowl does away with the rest
    assert_eq!(
        find_train_gate(&game, &data, &gates, &actions, Some(3)),
        Some((6, TrainGate::Outing))
    );
    game.base.uma.motivation = 3;
    assert_eq!(find_train_gate(&game, &data, &gates, &actions, Some(3)), None);
}

#[test]
fn an_ailment_is_slept_off_in_the_camp() {
    let data = uma_with(vec![]);
    let gates = PolicyGates::default();
    let mut game = game_at(37);
    game.base.uma.flags.bad_trainer = true;
    assert_eq!(
        find_train_gate(&game, &data, &gates, &train_actions(), None),
        Some((5, TrainGate::CampRest))
    );
}

#[test]
fn wisdom_training_can_do_without_the_rest() {
    let data = uma_with(vec![]);
    let gates = PolicyGates {
        wisdom_vital_floor: 32,
        ..PolicyGates::default()
    };
    let mut game = game_at(10);
    game.base.uma.vital = 35;
    assert_eq!(find_train_gate(&game, &data, &gates, &train_actions(), None), None);
    let without: Vec<RamenAction> = train_actions()
        .into_iter()
        .filter(|a| a.operation != Operation::Train(TrainingType::Wisdom))
        .collect();
    assert_eq!(
        find_train_gate(&game, &data, &gates, &without, None),
        Some((4, TrainGate::Rest { threshold: 45 }))
    );
}

#[test]
fn reasons_are_put_in_words() {
    let data = uma_with(vec![span(12, 26, 1, None)]);
    let gates = PolicyGates::default();
    let mut game = game_at(26);
    game.base.uma.vital = 30;
    game.base.uma.motivation = 2;
    assert_eq!(
        explain_gate(&game, &data, &gates, TrainGate::FreeRace),
        "守门: 自选比赛缺1场/剩1回合(无等级要求), 剩余回合不足需强制补赛"
    );
    assert_eq!(explain_gate(&game, &data, &gates, TrainGate::Clinic), "守门: 生病治病");
    assert_eq!(
        explain_gate(&game, &data, &gates, TrainGate::CampRest),
        "守门: 夏合宿休息(自动治病)"
    );
    assert_eq!(
        explain_gate(&game, &data, &gates, TrainGate::Rest { threshold: 45 }),
        "守门: 体力30<45休息"
    );
    assert_eq!(
        explain_gate(&game, &data, &gates, TrainGate::Outing),
        "守门: 心情2<3外出"
    );
    game.base.uma.set_race(20);
    assert_eq!(
        free_race_gate_reason(&game, &data),
        "自选比赛已达标(无等级要求), 区间剩余回合不再干预"
    );
    game.base.turn = 40;
    assert_eq!(free_race_gate_reason(&game, &data), "无自选比赛要求");
    let graded = uma_with(vec![span(46, 59, 3, Some(1))]);
    game.base.turn = 54;
    assert_eq!(
        free_race_gate_reason(&game, &graded),
        "自选比赛缺3场(要求G1及以上), 本回合等级不满足, 不白打"
    );
}

#[test]
fn the_first_of_the_best_is_chosen() {
    assert_eq!(argmax_index(&vec![]), 0);
    assert_eq!(argmax_index(&vec![-3]), 0);
    assert_eq!(argmax_index(&vec![1, 5, 5, 2]), 1);
    assert_eq!(argmax_index(&vec![i64::MIN, i64::MIN]), 0);
    assert_eq!(
        decide_train(
            &game_at(3),
            &uma_with(vec![]),
            &PolicyGates::default(),
            &vec![],
            None,
            &vec![]
        ),
        Err(SimError::NoCandidates)
    );
}

#[test]
fn operations_are_found_by_kind() {
    let actions = train_actions_with_race();
    assert_eq!(find_operation(&actions, Wanted::Wisdom), Some(4));
    assert_eq!(find_operation(&actions, Wanted::Outing), Some(6));
    assert_eq!(find_operation(&train_actions(), Wanted::Race), None);
}

#[test]
fn final_turns_have_races_of_the_highest_weight() {
    let cons = constants();
    assert_eq!(game_race_grade(&game_at(50), &cons), 1);
    assert_eq!(game_race_grade(&game_at(10), &cons), 2);
    assert_eq!(game_race_grade(&game_at(72), &cons), 4);
    assert_eq!(game_race_grade(&game_at(-1), &cons), 0);
    let none = GameConstants::default();
    assert_eq!(game_race_grade(&game_at(10), &none), 0);
}

#[test]
fn a_rise_counts_up_to_the_cap() {
    let cons = constants();
    let mut game = game_at(10);
    game.base.uma.five_status = [1000, 100, -5, 0, 0];
    game.base.uma.five_status_limit = [1100, 1200, 1200, 1200, 1200];
    // 1100 squared less 1000 squared, in hundredths
    assert_eq!(status_gain_points(&game, &cons, 0, 500), 12100 - 10000);
    assert_eq!(status_gain_points(&game, &cons, 1, 10), 121 - 100);
    assert_eq!(status_gain_points(&game, &cons, 1, -10), 0);
    assert_eq!(status_gain_points(&game, &cons, 2, 10), 1);
}

#[test]
fn regions_are_weighed_by_the_cards_they_help() {
    let mut game = game_at(10);
    game.card_type_count = [3, 1, 0, 1, 0, 1, 0];
    let region = |at_trains: Vec<i32>| RegionEffect {
        at_trains,
        ..Default::default()
    };
    let data = RamenScenarioData {
        ramen_region_effect: vec![region(vec![0, 1, 2]), region(vec![5, -1, 3])],
        ..Default::default()
    };
    assert_eq!(
        tally_region(&game, &data, 0),
        Ok(RegionTally { cards: 4, single: 1, empty: 1 })
    );
    assert_eq!(
        tally_region(&game, &data, 1),
        Ok(RegionTally { cards: 1, single: 1, empty: 0 })
    );
    assert_eq!(
        tally_region(&game, &data, 2),
        Err(SimError::RegionOutOfRange { region_id: 2 })
    );
}
