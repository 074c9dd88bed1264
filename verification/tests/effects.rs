use umasim::game::ramen::effects::{
    apply_ramen_training_effect, apply_ramen_training_value, calc_lasting_effect,
    calc_ramen_training_effect, calc_ramen_training_effect_with_ramen, calc_scenario_deyilv,
    covers_train, find_pt_effect_tier, format_ramen_effect_parts, RamenTrainingEffect,
};
use umasim::game::ramen::{RamenGame, RamenState};
use umasim::gamedata::ramen::{
    FinalsBaseEffect, FinalsEffect, FinalsExtraEffect, PtEffect, RamenBasicEffect,
    RamenScenarioData, RegionEffect, RmjEffect,
};

fn scenario() -> RamenScenarioData {
    let pt = |pt_min: i32, xunlian: i32, deyilv: i32, hint: i32| PtEffect {
        pt_min,
        xunlian,
        deyilv,
        hint,
    };
    let rmj = |youqing: i32, deyilv: i32, hint: i32| RmjEffect {
        youqing,
        deyilv,
        hint,
    };
    let basic = |xunlian: i32, youqing: i32, drop: i32, limit: i32, special: bool| RamenBasicEffect {
        xunlian,
        youqing,
        deyilv: 0,
        fail_rate_drop: drop,
        friendship: 2,
        status_limit: limit,
        hint_special: special,
    };
    let mut regions: Vec<RegionEffect> = Vec::new();
    for id in 0..20usize {
        regions.push(RegionEffect {
            id,
            name: format!("region {id}"),
            xunlian: if id < 5 { 10 } else { 0 },
            youqing: if id < 5 { 0 } else { 40 },
            pt_bonus: 5,
            hint_count: 1,
            at_trains: match id {
                5 => vec![0, 1, 2, 3, 4],
                6 => vec![2, 3],
                15 => vec![0, 2, 4],
                _ => vec![(id % 5) as i32],
            },
        });
    }
    RamenScenarioData {
        ramen_pt_effect: vec![
            pt(0, 0, 50, 0),
            pt(1000, 8, 63, 50),
            pt(2000, 12, 68, 70),
            pt(5000, 20, 80, 100),
        ],
        ramen_basic_effect: vec![
            basic(5, 15, 30, 10, false),
            basic(10, 30, 50, 20, false),
            basic(15, 45, 100, 40, true),
        ],
        ramen_success_effect: vec![rmj(5, 80, 30), rmj(10, 120, 40), rmj(15, 250, 50)],
        ramen_fail_effect: vec![rmj(2, 30, 10), rmj(4, 60, 20), rmj(6, 150, 30)],
        finals_effect: FinalsEffect {
            base: FinalsBaseEffect {
                vital: 10,
                motivation: 1,
                saihou: 20,
                youqing: 150,
                hint_level: 1,
            },
            extra: FinalsExtraEffect {
                pt_bonus: 100,
                pt_limit: 100,
                clone_count: 1,
            },
            training_limit_options: vec![vec![0, 1, 3, 4], vec![0, 1, 2, 4], vec![0, 2, 3, 4]],
        },
        region_bonus: vec![0, 3, 5, 7, 9, 10],
        ramen_region_effect: regions,
        ..Default::default()
    }
}

fn make_test_game() -> RamenGame {
    RamenGame {
        ramen: RamenState {
            scenario_pt: 1000,
            ..Default::default()
        },
        ..Default::default()
    }
}

#[test]
fn test_calc_effect_pt_only() {
    let mut game = make_test_game();
    game.base.turn = 5;
    let effect = calc_ramen_training_effect(&game, &scenario(), 0, false);
    assert_eq!(effect.xunlian, 8);
    assert_eq!(effect.deyilv, 63);
    assert_eq!(effect.hint, 50);
    assert_eq!(effect.youqing, 0);
    assert_eq!(effect.pt_bonus, 0);
    assert_eq!(effect.fail_rate_drop, 0);
}

#[test]
fn test_calc_effect_with_eating() {
    let data = scenario();
    let mut game = make_test_game();
    game.base.turn = 5;
    game.ramen.current_ramen = Some(0);
    game.ramen.scenario_pt = 500;
    let train_in_region = data.ramen_region_effect[0].at_trains[0] as usize;
    let effect = calc_ramen_training_effect(&game, &data, train_in_region, true);
    // five from the bowl, ten from the region; fifteen from the bowl, three from the tier
    assert_eq!(effect.xunlian, 15);
    assert_eq!(effect.youqing, 18);
    assert_eq!(effect.pt_bonus, 8);
    assert_eq!(effect.fail_rate_drop, 30);
    assert_eq!(effect.friendship, 2);
    assert_eq!(effect.status_limit, 10);
    let effect2 = calc_ramen_training_effect(&game, &data, 4, true);
    assert_eq!(effect2.xunlian, 5);
    assert_eq!(effect2.youqing, 15);
    assert_eq!(effect2.pt_bonus, 0);
}

#[test]
fn test_calc_effect_rmj_success() {
    let mut game = make_test_game();
    game.base.turn = 30;
    game.ramen.scenario_pt = 2000;
    game.ramen.rmj_results = vec![true];
    let effect = calc_ramen_training_effect(&game, &scenario(), 0, true);
    assert_eq!(effect.xunlian, 12);
    assert_eq!(effect.youqing, 5);
    assert_eq!(effect.deyilv, 68 + 80);
    assert_eq!(effect.hint, 70 + 30);
}

#[test]
fn test_calc_effect_super_ramen() {
    let data = scenario();
    let mut game = make_test_game();
    game.base.turn = 72;
    game.ramen.scenario_pt = 5000;
    let effect = calc_ramen_training_effect(&game, &data, 0, true);
    assert_eq!(effect.xunlian, 20 + 15);
    assert_eq!(effect.youqing, 45 + 150);
    assert_eq!(effect.status_limit, 40);
    assert_eq!(effect.pt_limit, 0);
    assert_eq!(effect.clone_count, 0);
    for ramen in [None, Some(0), Some(5)] {
        assert_eq!(
            calc_ramen_training_effect_with_ramen(&game, &data, 0, true, ramen),
            effect
        );
    }
}

#[test]
fn test_calc_effect_super_ramen_with_split() {
    let mut game = make_test_game();
    game.base.turn = 73;
    game.ramen.scenario_pt = 5000;
    game.deck_can_split = true;
    let effect = calc_ramen_training_effect(&game, &scenario(), 0, true);
    assert_eq!(effect.xunlian, 35);
    assert_eq!(effect.youqing, 195);
    assert_eq!(effect.pt_bonus, 100);
    assert_eq!(effect.pt_limit, 100);
    assert_eq!(effect.clone_count, 1);
}

#[test]
fn test_calc_effect_non_shining() {
    let mut game = make_test_game();
    game.base.turn = 5;
    game.ramen.scenario_pt = 500;
    game.ramen.current_ramen = Some(5);
    game.ramen.rmj_results = vec![true];
    let shining = calc_ramen_training_effect(&game, &scenario(), 0, true);
    let normal = calc_ramen_training_effect(&game, &scenario(), 0, false);
    assert!(shining.youqing > 0);
    assert_eq!(normal.youqing, 0);
    assert_eq!(normal.xunlian, shining.xunlian);
}

#[test]
fn test_apply_training_value_status() {
    let effect = RamenTrainingEffect {
        xunlian: 20,
        youqing: 10,
        ..Default::default()
    };
    assert_eq!(apply_ramen_training_value(50, &effect, 0), (66, 66));
}

#[test]
fn test_apply_training_value_pt() {
    let effect = RamenTrainingEffect {
        xunlian: 20,
        youqing: 10,
        pt_bonus: 50,
        ..Default::default()
    };
    assert_eq!(apply_ramen_training_value(50, &effect, 0), (66, 99));
}

#[test]
fn test_apply_training_value_upper_limit() {
    let effect = RamenTrainingEffect {
        xunlian: 100,
        youqing: 100,
        pt_bonus: 100,
        status_limit: 50,
        pt_limit: 100,
        ..Default::default()
    };
    assert_eq!(apply_ramen_training_value(80, &effect, 0), (230, 330));
}

#[test]
fn test_apply_training_value_lower_cap() {
    let effect = RamenTrainingEffect {
        xunlian: 20,
        youqing: 0,
        ..Default::default()
    };
    assert_eq!(apply_ramen_training_value(150, &effect, 0), (120, 120));
}

#[test]
fn test_calc_scenario_deyilv_normal_pt_only() {
    let mut game = make_test_game();
    game.base.turn = 5;
    game.ramen.scenario_pt = 1000;
    assert_eq!(calc_scenario_deyilv(&game, &scenario()), 63);
}

#[test]
fn test_calc_scenario_deyilv_normal_with_rmj_success() {
    let mut game = make_test_game();
    game.base.turn = 30;
    game.ramen.scenario_pt = 1000;
    game.ramen.rmj_results = vec![true];
    assert_eq!(calc_scenario_deyilv(&game, &scenario()), 143);
}

#[test]
fn test_calc_scenario_deyilv_normal_with_rmj_fail() {
    let mut game = make_test_game();
    game.base.turn = 30;
    game.ramen.scenario_pt = 1000;
    game.ramen.rmj_results = vec![false];
    assert_eq!(calc_scenario_deyilv(&game, &scenario()), 93);
}

#[test]
fn test_calc_scenario_deyilv_super_ramen() {
    let mut game = make_test_game();
    game.base.turn = 72;
    game.ramen.scenario_pt = 5000;
    game.ramen.rmj_results = vec![true, true, true];
    assert_eq!(calc_scenario_deyilv(&game, &scenario()), 330);
}

#[test]
fn test_calc_scenario_deyilv_super_ramen_rmj_fail() {
    let mut game = make_test_game();
    game.base.turn = 73;
    game.ramen.scenario_pt = 5000;
    game.ramen.rmj_results = vec![true, true, false];
    assert_eq!(calc_scenario_deyilv(&game, &scenario()), 230);
}

#[test]
fn the_highest_tier_that_is_reached_counts() {
    let data = scenario();
    assert_eq!(find_pt_effect_tier(&data, -5), 0);
    assert_eq!(find_pt_effect_tier(&data, 999), 0);
    assert_eq!(find_pt_effect_tier(&data, 1000), 1);
    assert_eq!(find_pt_effect_tier(&data, 4999), 2);
    assert_eq!(find_pt_effect_tier(&data, 9999), 3);
}

#[test]
fn the_speciality_rate_is_that_of_the_whole_effect() {
    let data = scenario();
    for turn in [5, 30, 60, 72] {
        let mut game = make_test_game();
        game.base.turn = turn;
        game.ramen.scenario_pt = 2500;
        game.ramen.rmj_results = vec![true, false, true];
        let effect = calc_ramen_training_effect(&game, &data, 0, true);
        assert_eq!(calc_scenario_deyilv(&game, &data), effect.deyilv);
    }
}

#[test]
fn a_bowl_helps_only_where_its_region_covers() {
    let data = scenario();
    assert!(covers_train(&data.ramen_region_effect[6], 2));
    assert!(!covers_train(&data.ramen_region_effect[6], 0));
    let mut game = make_test_game();
    game.base.turn = 30;
    let here = calc_ramen_training_effect_with_ramen(&game, &data, 2, true, Some(6));
    let there = calc_ramen_training_effect_with_ramen(&game, &data, 0, true, Some(6));
    // forty of the region and seven of the tier
    assert_eq!(here.youqing - there.youqing, 47);
    assert_eq!(here.pt_bonus - there.pt_bonus, 12);
}

#[test]
fn the_lasting_effect_is_what_remains_without_a_bowl() {
    let data = scenario();
    let mut game = make_test_game();
    game.base.turn = 30;
    game.ramen.rmj_results = vec![true];
    assert_eq!(
        calc_lasting_effect(&game, &data, 1),
        calc_ramen_training_effect_with_ramen(&game, &data, 0, true, None)
    );
}

#[test]
fn parts_are_shown_in_their_order_and_zeros_are_left_out() {
    let effect = RamenTrainingEffect {
        xunlian: 20,
        youqing: 45,
        deyilv: 140,
        fail_rate_drop: 50,
        status_limit: 20,
        pt_bonus: 5,
        hint: 70,
        ..Default::default()
    };
    assert_eq!(
        format_ramen_effect_parts(&effect).join(","),
        "训+20,友情+45,得意+140,失败率-50,上限+20,PT+5,hint+70"
    );
    assert!(format_ramen_effect_parts(&RamenTrainingEffect::default()).is_empty());
    let special = RamenTrainingEffect {
        hint_special: true,
        ..Default::default()
    };
    assert_eq!(format_ramen_effect_parts(&special).join(","), "hint全卡");
}

#[test]
fn all_six_values_are_raised_like_one() {
    let effect = RamenTrainingEffect {
        xunlian: 20,
        youqing: 10,
        pt_bonus: 50,
        ..Default::default()
    };
    assert_eq!(
        apply_ramen_training_effect([50, 0, 10, 0, 150, 50], &effect),
        [66, 0, 13, 0, 132, 99]
    );
}
