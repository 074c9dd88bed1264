use umasim::error::SimError;
use umasim::game::ramen::action::list_combined_ramen_select_actions;
use umasim::game::ramen::rules::{
    add_feeling, add_gauge, apply_friendship_gauge_bonus, calc_gauge_base_distribution,
    calc_ramen_pt_gain, calc_region_bonus, calc_train_feeling_bonus, can_make_ramen, check_rmj,
    consume_for_ramen, fill_gauge_after_non_train, fill_gauge_after_train, get_recipe,
    get_region_clone_trains, get_region_combinations, get_region_range,
    get_super_ramen_clone_train_options, get_turn_special_feeling, list_special_targets_for,
    min_special_targets, validate_region_selection, validate_special_targets, NPC_CHARA_IDS,
};
use umasim::game::ramen::{FeelingType, RamenState};
use umasim::gamedata::ramen::{FinalsEffect, RamenScenarioData, RegionEffect};

fn scenario() -> RamenScenarioData {
    let mut regions: Vec<RegionEffect> = Vec::new();
    for id in 0..20usize {
        regions.push(RegionEffect {
            id,
            at_trains: match id {
                0 => vec![0],
                5 => vec![0, 1, 2, 3, 4],
                6 => vec![2, 3],
                _ => vec![(id % 5) as i32],
            },
            ..Default::default()
        });
    }
    RamenScenarioData {
        ramen_success_pt: vec![1500, 2500, 3500],
        gain_pt_base: vec![300, 400, 500],
        gain_pt_delta: vec![30, 40, 50],
        region_feeling: vec![
            [2, 2, 1],
            [2, 1, 2],
            [3, 1, 1],
            [1, 3, 1],
            [1, 1, 3],
            [1, 2, 2],
            [2, 2, 1],
            [0, 3, 2],
            [2, 1, 2],
            [3, 2, 0],
        ],
        finals_effect: FinalsEffect {
            training_limit_options: vec![vec![0, 1, 3, 4], vec![0, 1, 2, 4], vec![0, 2, 3, 4]],
            ..Default::default()
        },
        ramen_region_effect: regions,
        ..Default::default()
    }
}

fn make_state_for_targets(stock: [i32; 3], special: i32) -> RamenState {
    let mut s = RamenState::default();
    s.feeling_stock = stock;
    s.special_feeling = special;
    s
}

fn five_of_each() -> Vec<FeelingType> {
    let mut queue = vec![FeelingType::A; 5];
    queue.extend(vec![FeelingType::B; 5]);
    queue.extend(vec![FeelingType::C; 5]);
    queue
}

#[test]
fn test_gauge_base_distribution() {
    let data = scenario();
    for a in 0..10usize {
        for b in 0..10usize {
            for c in 0..10usize {
                let dist = calc_gauge_base_distribution(&data, &[a, b, c]);
                assert_eq!(dist.iter().sum::<i32>(), 10);
                assert!(dist.iter().all(|&x| x >= 0));
            }
        }
    }
    // uses [5, 5, 5]: three each, and the point that is left goes to the first
    assert_eq!(calc_gauge_base_distribution(&data, &[0, 1, 5]), [4, 3, 3]);
    // uses [4, 8, 3]: eight of fifteen is five, four is two, three is two
    assert_eq!(calc_gauge_base_distribution(&data, &[3, 3, 0]), [3, 5, 2]);
}

#[test]
fn test_feeling_overflow() {
    let mut state = RamenState::default();
    add_feeling(&mut state, FeelingType::A, 5);
    add_feeling(&mut state, FeelingType::B, 3);
    add_feeling(&mut state, FeelingType::C, 2);
    assert_eq!(state.feeling_stock, [5, 3, 2]);
    assert_eq!(state.feeling_queue.len(), 10);
    add_feeling(&mut state, FeelingType::B, 1);
    assert_eq!(state.feeling_stock, [4, 4, 2]);
    assert_eq!(state.feeling_queue.len(), 10);
    assert_eq!(state.feeling_queue[9], FeelingType::B);
}

#[test]
fn test_gauge_overflow() {
    let mut state = RamenState::default();
    state.feeling_slot[0] = 5;
    let gained = add_gauge(&mut state, FeelingType::A, 3);
    assert_eq!(gained, 1);
    assert_eq!(state.feeling_slot[0], 0);
    assert_eq!(state.feeling_stock[0], 1);
}

#[test]
fn test_train_feeling_bonus() {
    assert_eq!(calc_train_feeling_bonus(2, 3), 4);
    assert_eq!(calc_train_feeling_bonus(4, 5), 7);
}

#[test]
fn test_can_make_ramen() {
    let data = scenario();
    let recipe = get_recipe(&data, 0).unwrap();
    assert_eq!(*recipe, [2, 2, 1]);
    let mut state = RamenState::default();
    state.feeling_stock = [5, 5, 5];
    assert!(can_make_ramen(&state, recipe, &[0, 0, 0]));
    state.feeling_stock = [1, 5, 5];
    assert!(!can_make_ramen(&state, recipe, &[0, 0, 0]));
    state.special_feeling = 1;
    assert!(can_make_ramen(&state, recipe, &[1, 0, 0]));
    state.special_feeling = 0;
    assert!(!can_make_ramen(&state, recipe, &[1, 0, 0]));
    assert!(get_recipe(&data, 0).is_ok());
    assert_eq!(get_recipe(&data, 15), get_recipe(&data, 5));
    assert!(get_recipe(&data, 15).is_ok());
}

#[test]
fn test_consume_for_ramen() {
    let data = scenario();
    let mut state = RamenState::default();
    state.feeling_stock = [5, 5, 5];
    state.feeling_queue = five_of_each();

    let used = consume_for_ramen(&data, &mut state, 0, &[0, 0, 0]).unwrap();
    assert_eq!(used, 0);
    assert_eq!(state.feeling_stock, [3, 3, 4]);
    assert_eq!(state.feeling_queue.len(), 10);

    state.special_feeling = 2;
    let used = consume_for_ramen(&data, &mut state, 0, &[1, 1, 0]).unwrap();
    assert_eq!(used, 2);
    assert_eq!(state.feeling_stock, [2, 2, 3]);
    assert_eq!(state.special_feeling, 0);

    state.feeling_stock = [5, 5, 5];
    state.special_feeling = 2;
    state.feeling_queue = five_of_each();
    let used = consume_for_ramen(&data, &mut state, 4, &[0, 0, 2]).unwrap();
    assert_eq!(used, 2);
    assert_eq!(state.feeling_stock, [4, 4, 4]);
    assert_eq!(state.special_feeling, 0);
}

#[test]
fn test_consume_for_ramen_errors() {
    let data = scenario();
    let mut state = RamenState::default();
    state.feeling_stock = [5, 5, 5];
    assert_eq!(
        consume_for_ramen(&data, &mut state, 0, &[3, 0, 0]),
        Err(SimError::SpecialTotal { total: 3 })
    );
    state.special_feeling = 0;
    assert_eq!(
        consume_for_ramen(&data, &mut state, 0, &[1, 0, 0]),
        Err(SimError::SpecialShort { need: 1, have: 0 })
    );
    assert_eq!(
        consume_for_ramen(&data, &mut state, 0, &[-1, 0, 0]),
        Err(SimError::SpecialNegative { index: 0, value: -1 })
    );
    assert_eq!(
        consume_for_ramen(&data, &mut state, 0, &[0, 0, 2]),
        Err(SimError::SpecialOverRecipe { index: 2, value: 2, cost: 1 })
    );
    assert_eq!(state.feeling_stock, [5, 5, 5]);
}

#[test]
fn a_short_stock_and_a_costly_recipe_are_refused() {
    let mut data = scenario();
    let mut state = RamenState::default();
    state.feeling_stock = [1, 5, 5];
    assert_eq!(
        consume_for_ramen(&data, &mut state, 0, &[0, 0, 0]),
        Err(SimError::FeelingShort { index: 0, need: 2, have: 1 })
    );
    data.region_feeling[3] = [2, 2, 2];
    assert_eq!(get_recipe(&data, 3), Err(SimError::RecipeCost { recipe_idx: 3 }));
    assert_eq!(
        consume_for_ramen(&data, &mut state, 3, &[0, 0, 0]),
        Err(SimError::RecipeCost { recipe_idx: 3 })
    );
    assert_eq!(
        list_special_targets_for(&data, &state, 13),
        Err(SimError::RecipeCost { recipe_idx: 13 })
    );
}

#[test]
fn test_calc_ramen_pt_gain() {
    let data = scenario();
    assert_eq!(calc_ramen_pt_gain(&data, 0, 0), Ok(300));
    assert_eq!(calc_ramen_pt_gain(&data, 0, 3), Ok(390));
    assert_eq!(calc_ramen_pt_gain(&data, 0, 5), Ok(450));
    assert_eq!(calc_ramen_pt_gain(&data, 0, 10), Ok(450));
    assert_eq!(calc_ramen_pt_gain(&data, 2, 0), Ok(500));
    assert_eq!(
        calc_ramen_pt_gain(&data, 3, 0),
        Err(SimError::YearOutOfRange { year_idx: 3 })
    );
}

#[test]
fn test_check_rmj() {
    let data = scenario();
    let mut state = RamenState::default();
    state.scenario_pt = 1500;
    let result = check_rmj(&data, &mut state, 0);
    assert!(result.is_success());
    assert!(!result.is_great_success());

    state.scenario_pt = 1499;
    let result = check_rmj(&data, &mut state, 0);
    assert!(!result.is_success());

    state.scenario_pt = 3500;
    let result = check_rmj(&data, &mut state, 2);
    assert!(result.is_success());
    assert!(!result.is_great_success());

    state.scenario_pt = 5000;
    let result = check_rmj(&data, &mut state, 2);
    assert!(result.is_success());
    assert!(result.is_great_success());

    state.scenario_pt = 4999;
    let result = check_rmj(&data, &mut state, 2);
    assert!(result.is_success());
    assert!(!result.is_great_success());

    assert_eq!(state.rmj_results, vec![true, false, true, true, true]);
}

#[test]
fn test_get_region_range() {
    assert_eq!(get_region_range(0), Ok(vec![0, 1, 2, 3, 4]));
    assert_eq!(get_region_range(1), Ok(vec![5, 6, 7, 8, 9]));
    let range2 = get_region_range(2).unwrap();
    assert_eq!(range2.len(), 10);
    assert_eq!(range2[0], 10);
    assert_eq!(range2[9], 19);
    assert!(get_region_range(3).is_err());
}

#[test]
fn test_validate_region_selection() {
    assert!(validate_region_selection(0, &[0, 2, 4]));
    assert!(validate_region_selection(1, &[5, 7, 9]));
    assert!(validate_region_selection(2, &[10, 15, 19]));

    assert!(!validate_region_selection(0, &[0, 2, 5]));
    assert!(!validate_region_selection(1, &[4, 7, 9]));

    assert!(!validate_region_selection(0, &[0, 0, 4]));
    assert!(!validate_region_selection(2, &[10, 15, 10]));

    assert!(!validate_region_selection(3, &[0, 1, 2]));
}

#[test]
fn test_get_turn_special_feeling() {
    for &turn in &[2, 24, 36, 48, 60] {
        assert_eq!(get_turn_special_feeling(turn), 2);
    }
    for &turn in &[37, 38, 39, 61, 62, 63] {
        assert_eq!(get_turn_special_feeling(turn), 1);
    }
    for &turn in &[0, 1, 10, 23, 35, 50, 70] {
        assert_eq!(get_turn_special_feeling(turn), 0);
    }
}

#[test]
fn test_calc_region_bonus() {
    assert_eq!(calc_region_bonus(0), 0);
    assert_eq!(calc_region_bonus(299), 0);
    assert_eq!(calc_region_bonus(300), 3);
    assert_eq!(calc_region_bonus(600), 5);
    assert_eq!(calc_region_bonus(1000), 7);
    assert_eq!(calc_region_bonus(1200), 9);
    assert_eq!(calc_region_bonus(1500), 10);
    assert_eq!(calc_region_bonus(5000), 10);
}

#[test]
fn test_get_region_clone_trains() {
    let data = scenario();
    assert_eq!(get_region_clone_trains(&data, 5), Ok(vec![0, 1, 2, 3, 4]));
    assert_eq!(get_region_clone_trains(&data, 6), Ok(vec![2, 3]));
    assert_eq!(get_region_clone_trains(&data, 0), Ok(vec![0]));
    assert_eq!(
        get_region_clone_trains(&data, 999),
        Err(SimError::RegionOutOfRange { region_id: 999 })
    );
}

#[test]
fn test_get_super_ramen_clone_train_options() {
    let data = scenario();
    let options = get_super_ramen_clone_train_options(&data).unwrap();
    assert_eq!(options.len(), 3);
    assert_eq!(options[0], vec![0, 1, 3, 4]);
    assert_eq!(options[1], vec![0, 1, 2, 4]);
    assert_eq!(options[2], vec![0, 2, 3, 4]);
}

#[test]
fn test_npc_chara_ids() {
    assert_eq!(NPC_CHARA_IDS.len(), 5);
    assert_eq!(NPC_CHARA_IDS[0], 1022);
    assert_eq!(NPC_CHARA_IDS[1], 1058);
    assert_eq!(NPC_CHARA_IDS[2], 1060);
    assert_eq!(NPC_CHARA_IDS[3], 1077);
    assert_eq!(NPC_CHARA_IDS[4], 1120);
}

#[test]
fn test_list_special_targets_full_stock_sapporo_9() {
    let state = make_state_for_targets([5, 5, 5], 4);
    let targets = list_special_targets_for(&scenario(), &state, 0).unwrap();
    assert_eq!(targets.len(), 9);
    let sums: Vec<i32> = targets.iter().map(|t| t.iter().sum()).collect();
    let mut sorted = sums.clone();
    sorted.sort();
    assert_eq!(sums, sorted);
    assert!(targets.contains(&[0, 0, 0]));
    assert!(targets.contains(&[2, 0, 0]));
}

#[test]
fn test_list_special_targets_min_needed_a3b1c1() {
    let state = make_state_for_targets([2, 5, 5], 4);
    let targets = list_special_targets_for(&scenario(), &state, 2).unwrap();
    assert_eq!(targets.len(), 4);
    assert_eq!(targets[0], [1, 0, 0]);
    let sums: Vec<i32> = targets.iter().map(|t| t.iter().sum()).collect();
    assert_eq!(sums, vec![1, 2, 2, 2]);
}

#[test]
fn test_list_special_targets_impossible() {
    let state = make_state_for_targets([0, 5, 5], 1);
    let targets = list_special_targets_for(&scenario(), &state, 2).unwrap();
    assert!(targets.is_empty());
}

#[test]
fn test_list_special_targets_no_special_feeling() {
    let state = make_state_for_targets([5, 5, 5], 0);
    let targets = list_special_targets_for(&scenario(), &state, 0).unwrap();
    assert_eq!(targets, vec![[0, 0, 0]]);
}

#[test]
fn test_list_special_targets_recipe_with_zero_dim() {
    let state = make_state_for_targets([5, 5, 5], 4);
    let targets = list_special_targets_for(&scenario(), &state, 7).unwrap();
    assert_eq!(targets.len(), 6);
    for t in &targets {
        assert_eq!(t[0], 0);
    }
}

#[test]
fn test_list_special_targets_sorted_ascending() {
    let state = make_state_for_targets([5, 5, 5], 4);
    let data = scenario();
    for idx in 0..data.region_feeling.len() {
        let targets = list_special_targets_for(&data, &state, idx).unwrap();
        let sums: Vec<i32> = targets.iter().map(|t| t.iter().sum()).collect();
        let mut sorted = sums.clone();
        sorted.sort();
        assert_eq!(sums, sorted, "recipe {idx}");
    }
}

const LEGAL_SPECIAL_TARGETS: [[i32; 3]; 10] = [
    [0, 0, 0],
    [1, 0, 0],
    [0, 1, 0],
    [0, 0, 1],
    [2, 0, 0],
    [0, 2, 0],
    [0, 0, 2],
    [1, 1, 0],
    [1, 0, 1],
    [0, 1, 1],
];

#[test]
fn test_special_targets_sum_invariant() {
    let data = scenario();
    let stocks: [[i32; 3]; 3] = [[0, 0, 0], [5, 0, 2], [5, 5, 5]];
    for recipe_idx in 0..10 {
        let recipe = get_recipe(&data, recipe_idx).unwrap();
        for sf in 0..=4 {
            for stock in stocks {
                let state = make_state_for_targets(stock, sf);
                let targets = list_special_targets_for(&data, &state, recipe_idx).unwrap();
                let min = min_special_targets(&state, recipe);
                let mut expected: Vec<[i32; 3]> = LEGAL_SPECIAL_TARGETS
                    .into_iter()
                    .filter(|t| {
                        validate_special_targets(recipe, t).is_ok() && can_make_ramen(&state, recipe, t)
                    })
                    .collect();
                expected.sort_by_key(|t| (t.iter().sum::<i32>(), *t));
                assert_eq!(targets, expected);
                assert_eq!(min, expected.first().copied());
                let mut prev_sum = i32::MIN;
                for t in &targets {
                    let s: i32 = t.iter().sum();
                    assert!(s <= 2);
                    assert!(LEGAL_SPECIAL_TARGETS.contains(t));
                    assert!(s >= prev_sum);
                    prev_sum = s;
                    assert!(validate_special_targets(recipe, t).is_ok());
                }
            }
        }
    }
}

#[test]
fn test_special_targets_enumeration_is_within_ten() {
    let data = scenario();
    let stocks = [[0, 0, 0], [2, 2, 1], [5, 0, 5], [5, 5, 5], [10, 10, 10]];
    let mut max_n = 0usize;
    for recipe_idx in 0..10 {
        for sf in 0..=4 {
            for stock in stocks {
                let state = make_state_for_targets(stock, sf);
                let targets = list_special_targets_for(&data, &state, recipe_idx).unwrap();
                assert!(targets.len() <= 10);
                for t in &targets {
                    assert!(LEGAL_SPECIAL_TARGETS.contains(t));
                }
                max_n = max_n.max(targets.len());
            }
        }
    }
    assert!(max_n >= 9);
}

#[test]
fn test_combined_ramen_actions_peak() {
    let data = scenario();
    let state = make_state_for_targets([5, 5, 5], 4);
    let mut peak = 0usize;
    for year in 0..3 {
        for combo in get_region_combinations(year).unwrap() {
            let n = list_combined_ramen_select_actions(&data, &state, &combo).len();
            let mut expect = 1usize;
            for &r in &combo {
                expect += list_special_targets_for(&data, &state, r).unwrap().len();
            }
            assert_eq!(n, expect);
            peak = peak.max(n);
        }
    }
    assert_eq!(peak, 28);
}

#[test]
fn test_fill_gauge_after_train_xiahesu_max() {
    let mut state = RamenState::default();
    state.feeling_slot = [0, 3, 6];
    state.feeling_stock = [0, 0, 0];
    fill_gauge_after_train(&mut state, &[5, 4, 1], FeelingType::A, 4, false, true);
    assert_eq!(state.feeling_slot, [0, 0, 0]);
    assert_eq!(state.feeling_stock, [1, 1, 1]);
}

#[test]
fn test_fill_gauge_after_train_normal() {
    let mut state = RamenState::default();
    state.feeling_slot = [0, 0, 0];
    state.feeling_stock = [0, 0, 0];
    fill_gauge_after_train(&mut state, &[5, 4, 1], FeelingType::C, 3, false, false);
    assert_eq!(state.feeling_slot, [5, 4, 4]);
    assert_eq!(state.feeling_stock, [0, 0, 0]);

    let mut state2 = RamenState::default();
    state2.feeling_slot = [5, 4, 4];
    fill_gauge_after_train(&mut state2, &[0, 0, 0], FeelingType::A, 0, true, false);
    assert_eq!(state2.feeling_slot, [7, 6, 6]);
}

#[test]
fn test_fill_gauge_after_non_train_xiahesu() {
    let mut state = RamenState::default();
    state.feeling_slot = [1, 2, 3];
    state.feeling_stock = [0, 0, 0];
    fill_gauge_after_non_train(&mut state, &[0, 0, 0], true);
    assert_eq!(state.feeling_slot, [0, 0, 0]);
    assert_eq!(state.feeling_stock, [1, 1, 1]);
}

#[test]
fn test_fill_gauge_after_non_train_normal() {
    let mut state = RamenState::default();
    state.feeling_slot = [0, 0, 0];
    state.feeling_stock = [0, 0, 0];
    fill_gauge_after_non_train(&mut state, &[5, 4, 1], false);
    assert_eq!(state.feeling_slot, [5, 4, 1]);
    assert_eq!(state.feeling_stock, [0, 0, 0]);
}

#[test]
fn test_fill_gauge_after_non_train_xiahesu_partial() {
    let mut state = RamenState::default();
    state.feeling_slot = [5, 6, 7];
    state.feeling_stock = [2, 2, 2];
    fill_gauge_after_non_train(&mut state, &[0, 0, 0], true);
    assert_eq!(state.feeling_slot, [0, 0, 7]);
    assert_eq!(state.feeling_stock, [3, 3, 2]);
}

#[test]
fn a_friendship_training_fills_every_gauge_by_two_up_to_the_limit() {
    let mut state = RamenState::default();
    state.feeling_slot = [6, 0, 7];
    apply_friendship_gauge_bonus(&mut state);
    assert_eq!(state.feeling_slot, [7, 2, 7]);
    assert_eq!(state.feeling_stock, [0, 0, 0]);
}

#[test]
fn combinations_are_the_legal_picks() {
    for (year, want) in [(0usize, 10usize), (1, 10), (2, 120)] {
        let list = get_region_combinations(year).unwrap();
        assert_eq!(list.len(), want);
        for c in &list {
            assert!(validate_region_selection(year, c));
        }
        for pair in list.windows(2) {
            assert!(pair[0] < pair[1]);
        }
    }
    assert_eq!(get_region_combinations(2).unwrap()[0], [10, 11, 12]);
    assert!(get_region_combinations(2).unwrap().contains(&[10, 15, 19]));
    assert_eq!(
        get_region_combinations(3),
        Err(SimError::YearOutOfRange { year_idx: 3 })
    );
}

#[test]
fn base_points_follow_the_nearest_share() {
    let data = scenario();
    let cases: [([usize; 3], [i32; 3]); 11] = [
        ([2, 3, 6], [4, 4, 2]),
        ([0, 3, 6], [3, 5, 2]),
        ([0, 3, 9], [4, 5, 1]),
        ([0, 6, 9], [5, 4, 1]),
        ([3, 7, 9], [3, 5, 2]),
        ([0, 3, 7], [2, 5, 3]),
        ([0, 6, 7], [3, 4, 3]),
        ([0, 1, 6], [4, 3, 3]),
        ([0, 4, 6], [4, 3, 3]),
        ([0, 5, 6], [3, 4, 3]),
        ([5, 6, 7], [2, 5, 3]),
    ];
    for (regions, want) in cases {
        assert_eq!(calc_gauge_base_distribution(&data, &regions), want);
    }
    // uses [7, 5, 3]: seven of fifteen is nearer to five than to four
    assert_eq!(calc_gauge_base_distribution(&data, &[0, 10, 2]), [5, 3, 2]);
    // uses [7, 4, 4]: five, three and three are one too many, the first has the most
    assert_eq!(calc_gauge_base_distribution(&data, &[9, 8, 8]), [4, 3, 3]);
    // uses [7, 7, 1]: one is fixed, two halves are rounded up, the last gives one back
    assert_eq!(calc_gauge_base_distribution(&data, &[9, 9, 3]), [5, 4, 1]);
}

#[test]
fn a_region_that_does_not_exist_has_no_recipe() {
    let data = scenario();
    let missing = SimError::RegionOutOfRange { region_id: 999 };
    assert_eq!(get_recipe(&data, 999), Err(missing));
    assert_eq!(
        get_recipe(&data, 20),
        Err(SimError::RegionOutOfRange { region_id: 20 })
    );
    assert_eq!(get_recipe(&data, 19), Ok(&[3, 2, 0]));
    let mut state = RamenState::default();
    state.feeling_stock = [5, 5, 5];
    state.feeling_queue = five_of_each();
    assert_eq!(
        consume_for_ramen(&data, &mut state, 999, &[0, 0, 0]),
        Err(SimError::RegionOutOfRange { region_id: 999 })
    );
    assert_eq!(state.feeling_stock, [5, 5, 5]);
    assert_eq!(state.feeling_queue.len(), 15);
    assert_eq!(
        list_special_targets_for(&data, &state, 999),
        Err(SimError::RegionOutOfRange { region_id: 999 })
    );
    // nothing but the refusal of a bowl is offered
    assert_eq!(list_combined_ramen_select_actions(&data, &state, &[999, 20, 21]).len(), 1);
}

#[test]
fn a_negative_stock_makes_no_bowl() {
    let data = scenario();
    let recipe = get_recipe(&data, 7).unwrap();
    assert_eq!(*recipe, [0, 3, 2]);
    let state = make_state_for_targets([-1, 5, 5], 4);
    assert_eq!(min_special_targets(&state, recipe), None);
    assert_eq!(list_special_targets_for(&data, &state, 7), Ok(vec![]));
    let state = make_state_for_targets([i32::MIN, 5, 5], 4);
    assert_eq!(min_special_targets(&state, recipe), None);
    let state = make_state_for_targets([0, 2, 1], 4);
    assert_eq!(min_special_targets(&state, recipe), Some([0, 1, 1]));
}

#[test]
fn gauges_below_zero_fill_up_as_well() {
    let mut state = RamenState::default();
    state.feeling_slot = [-3, 6, 0];
    fill_gauge_after_train(&mut state, &[2, 2, -1], FeelingType::C, 4, true, false);
    assert_eq!(state.feeling_slot, [1, 2, 5]);
    assert_eq!(state.feeling_stock, [0, 1, 0]);
    state.feeling_slot = [-3, 7, 0];
    fill_gauge_after_train(&mut state, &[2, 2, -1], FeelingType::C, 4, true, true);
    assert_eq!(state.feeling_slot, [0, 7, 0]);
    assert_eq!(state.feeling_stock, [1, 1, 1]);
}

#[test]
fn a_training_without_bonus_fills_like_any_other_action() {
    for camp in [false, true] {
        for shown in [FeelingType::A, FeelingType::B, FeelingType::C] {
            let mut trained = RamenState::default();
            trained.feeling_slot = [6, 3, 0];
            let mut rested = trained.clone();
            fill_gauge_after_train(&mut trained, &[4, 3, 3], shown, 0, false, camp);
            fill_gauge_after_non_train(&mut rested, &[4, 3, 3], camp);
            assert_eq!(trained.feeling_slot, rested.feeling_slot);
            assert_eq!(trained.feeling_stock, rested.feeling_stock);
            assert_eq!(trained.feeling_queue, rested.feeling_queue);
        }
    }
    // in the summer camp nothing else counts
    let mut a = RamenState::default();
    a.feeling_slot = [6, 3, 0];
    let mut b = a.clone();
    fill_gauge_after_train(&mut a, &[4, 3, 3], FeelingType::A, 5, true, true);
    fill_gauge_after_train(&mut b, &[1, 1, 8], FeelingType::C, 0, false, true);
    assert_eq!((a.feeling_slot, a.feeling_stock), (b.feeling_slot, b.feeling_stock));
    assert_eq!(a.feeling_stock, [1, 1, 1]);
}

#[test]
fn a_full_stock_takes_any_number_of_points() {
    let mut state = RamenState::default();
    state.obs_year = 3;
    add_feeling(&mut state, FeelingType::A, 7);
    add_feeling(&mut state, FeelingType::C, 1_000_000);
    assert_eq!(state.feeling_stock, [0, 0, 10]);
    assert_eq!(state.feeling_queue, vec![FeelingType::C; 10]);
    assert_eq!(state.yearly_gauge_overflow, [0, 0, 0]);
    // stocks of other kinds do not matter for one that gains
    let mut state = RamenState::default();
    state.feeling_stock = [i32::MAX, 0, 0];
    state.obs_year = 3;
    assert_eq!(add_gauge(&mut state, FeelingType::B, 7), 1);
    assert_eq!(state.feeling_stock, [i32::MAX, 0, 0]);
}

#[test]
fn the_number_of_picks_is_fixed_by_the_year() {
    assert_eq!(get_region_combinations(0).unwrap().len(), 10);
    assert_eq!(get_region_combinations(1).unwrap().len(), 10);
    assert_eq!(get_region_combinations(2).unwrap().len(), 120);
}
