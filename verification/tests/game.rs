use rand::rngs::StdRng;
use rand::SeedableRng;
use rand_distr::weighted::WeightedIndex;
use rand_distr::Distribution;
use umasim::error::SimError;
use umasim::game::base::person::{BasePerson, Person, PersonType};
use umasim::game::base::state::FriendOutState;
use umasim::game::ramen::action::{
    region_select_combos, Operation, RamenAction, RamenRegionStrategy, TrainingType,
};
use umasim::game::ramen::begin::RandomEvents;
use umasim::game::ramen::decisions::{event_asks, event_option};
use umasim::game::ramen::distribution::{bucket_of, sample_bucket, SpecialityRate};
use umasim::game::ramen::effects::calc_ramen_training_effect;
use umasim::game::ramen::story::{
    find_rmj_event, find_scenario_event, rmj_event_year, select_rmj_choice_by_result, EventDraws,
};
use umasim::game::ramen::training::training_base;
use umasim::game::ramen::{RamenGame, RamenStage, RamenState};
use umasim::game::support_card::{CardTrainingEffect, SupportCard};
use umasim::gamedata::constants::GameConstants;
use umasim::gamedata::event::{
    ActionValue, EventChoice, EventCollection, EventData, EventRates, NamedEvent, TriggerType,
};
use umasim::gamedata::ramen::{
    FinalsBaseEffect, FinalsEffect, FinalsExtraEffect, PtEffect, RamenBasicEffect,
    RamenScenarioData, RegionEffect, RmjEffect,
};
use umasim::gamedata::support_card::{CardValue, SupportCardData};
use umasim::gamedata::uma::UmaData;

fn rmj_story(id: u32) -> EventData {
    let outcome = |result: i32, status: i32, pt: i32, vital: i32| EventChoice {
        result,
        value: ActionValue {
            status_pt: [status, status, status, status, status, pt],
            vital,
            ..Default::default()
        },
        ..Default::default()
    };
    EventData {
        id,
        choices: vec![vec![outcome(2, 10, 100, 33), outcome(1, 5, 50, 30)]],
        ..Default::default()
    }
}

fn on_turn(id: u32, turn: i32) -> EventData {
    EventData {
        id,
        trigger: TriggerType::Fixed { turns: vec![turn] },
        ..Default::default()
    }
}

fn named(key: &str, id: u32) -> NamedEvent {
    NamedEvent {
        key: key.to_string(),
        event: EventData {
            id,
            ..Default::default()
        },
    }
}

fn scenario() -> RamenScenarioData {
    let pt = |pt_min: i32, xunlian: i32, hint: i32| PtEffect {
        pt_min,
        xunlian,
        deyilv: 60,
        hint,
    };
    let basic = |xunlian: i32, special: bool| RamenBasicEffect {
        xunlian,
        youqing: 15,
        friendship: 3,
        hint_special: special,
        ..Default::default()
    };
    let rmj = |hint: i32| RmjEffect {
        youqing: 5,
        deyilv: 80,
        hint,
    };
    let mut regions: Vec<RegionEffect> = Vec::new();
    for id in 0..20usize {
        regions.push(RegionEffect {
            id,
            name: format!("region {id}"),
            xunlian: if id < 5 { 10 } else { 0 },
            youqing: if id < 5 { 0 } else { 40 },
            at_trains: match id {
                0 => vec![0],
                5 => vec![0, 1, 2, 3, 4],
                6 => vec![2, 3],
                15 => vec![0, 2, 4],
                _ => vec![(id % 5) as i32],
            },
            ..Default::default()
        });
    }
    RamenScenarioData {
        ramen_success_pt: vec![1500, 2500, 3500],
        gain_pt_base: vec![300, 400, 500],
        gain_pt_delta: vec![30, 40, 50],
        ramen_pt_effect: vec![pt(0, 0, 0), pt(500, 5, 30), pt(1000, 8, 50), pt(5000, 20, 100)],
        ramen_basic_effect: vec![basic(5, false), basic(10, false), basic(15, true)],
        ramen_success_effect: vec![rmj(30), rmj(40), rmj(50)],
        ramen_fail_effect: vec![rmj(10), rmj(20), rmj(30)],
        finals_effect: FinalsEffect {
            base: FinalsBaseEffect {
                vital: 20,
                motivation: 1,
                saihou: 100,
                youqing: 150,
                hint_level: 1,
            },
            extra: FinalsExtraEffect {
                pt_bonus: 100,
                pt_limit: 100,
                clone_count: 1,
            },
            training_limit_options: vec![vec![0, 1, 3, 4], vec![0, 1, 2, 4], vec![0, 2, 3, 4]],
        },
        region_feeling: vec![
            [2, 2, 1],
            [2, 1, 2],
            [3, 1, 1],
            [1, 3, 1],
            [1, 1, 3],
            [1, 2, 2],
            [2, 2, 1],
            [0, 3, 2],
            [2, 1, 2],
            [3, 2, 0],
        ],
        region_bonus: vec![0, 3, 5, 7, 9, 10],
        ramen_region_effect: regions,
        scenario_events: vec![
            on_turn(400000400, 0),
            rmj_story(401404),
            rmj_story(401405),
            rmj_story(401406),
            EventData {
                id: 401407,
                ..Default::default()
            },
        ],
        friend_events: vec![
            named("newyear", 830305001),
            named("end", 830305002),
            named("out", 830305103),
        ],
        ..Default::default()
    }
}

fn story() -> EventCollection {
    EventCollection {
        story_events: vec![on_turn(4009, 24), on_turn(4010, 48)],
        system_events: vec![
            named("drop_motivation", 90),
            named("ticket", 4011),
            named("ending", 5011),
        ],
        ..Default::default()
    }
}

fn constants() -> GameConstants {
    GameConstants {
        base_hint_rate: 750,
        ..Default::default()
    }
}

/// Five training cards, one for each training, and the new friend.
fn deck() -> Vec<SupportCard> {
    let ids: [u32; 6] = [302424, 302894, 303044, 302924, 303024, 303054];
    ids.iter()
        .enumerate()
        .map(|(i, &idrank)| {
            let data: &'static SupportCardData = Box::leak(Box::new(SupportCardData {
                card_id: idrank / 10,
                chara_id: 1000 + i as u32,
                card_name: format!("[card]number {i}"),
                card_type: i as i32,
                card_value: vec![
                    CardValue {
                        initial_jiban: 20,
                        ..Default::default()
                    };
                    5
                ],
                ..Default::default()
            }));
            SupportCard::new(data, idrank).unwrap()
        })
        .collect()
}

/// A career right after its start.
fn newgame() -> RamenGame {
    let mut game = RamenGame::default();
    game.base.deck = deck();
    game.base.uma.vital = 100;
    game.base.uma.max_vital = 100;
    game.base.uma.motivation = 3;
    game.base.uma.five_status = [100; 5];
    game.base.uma.five_status_limit = [1200; 5];
    game.card_type_count = [1, 1, 1, 1, 1, 1, 0];
    game.deck_can_split = true;
    game.init_persons();
    game
}

fn rate(deyilv: i32) -> SpecialityRate {
    SpecialityRate {
        calm: deyilv,
        shining: deyilv,
    }
}

fn place_of(game: &RamenGame, kind: PersonType) -> usize {
    game.persons.iter().position(|p| p.person_type == kind).unwrap()
}

fn step(game: &mut RamenGame) -> bool {
    game.next(&scenario(), &UmaData::default(), &mut StdRng::seed_from_u64(1))
}

fn list(game: &RamenGame) -> Vec<RamenAction> {
    game.list_actions(&scenario(), RamenRegionStrategy::All, None).unwrap()
}

#[test]
fn test_absent_weight_by_type() {
    let mut game = newgame();
    game.base.turn = 2;
    game.add_friend_and_npcs();
    assert_eq!(game.absent_weight(0), 50);
    assert_eq!(game.absent_weight(place_of(&game, PersonType::Yayoi)), 200);
    assert_eq!(game.absent_weight(place_of(&game, PersonType::ScenarioCard)), 100);
    assert_eq!(game.absent_weight(place_of(&game, PersonType::Npc)), 0);
}

#[test]
fn who_stays_away_is_recorded_and_not_seated() {
    let mut stayed = 0;
    let mut came = 0;
    for seed in 0..200 {
        let mut game = newgame();
        game.base.turn = 2;
        game.add_friend_and_npcs();
        game.reset_distribution();
        let mut rng = StdRng::seed_from_u64(seed);
        let r = game.distribute_person(0, true, rate(0), &mut rng).unwrap();
        if r == -1 {
            stayed += 1;
            assert_eq!(game.ramen.absent_cards, vec![0]);
            assert!(game.base.distribution.iter().all(|d| d.is_empty()));
        } else {
            came += 1;
            assert!(game.ramen.absent_cards.is_empty());
            assert_eq!(game.base.distribution[r as usize], vec![0]);
        }
        let npc = place_of(&game, PersonType::Npc) as i32;
        assert!(game.distribute_person(npc, true, rate(0), &mut rng).unwrap() >= 0);
        assert!(game.distribute_person(1, false, rate(0), &mut rng).unwrap() >= 0);
    }
    // one in eleven stays away
    assert!(stayed > 0 && came > stayed);
}

#[test]
fn a_speciality_draws_a_person_to_their_training() {
    let mut own = 0;
    for seed in 0..200 {
        let mut game = newgame();
        game.reset_distribution();
        let mut rng = StdRng::seed_from_u64(seed);
        if game.distribute_person(3, false, rate(100_000), &mut rng).unwrap() == 3 {
            own += 1;
        }
    }
    assert!(own > 190);
    let mut game = newgame();
    game.reset_distribution();
    assert_eq!(
        game.distribute_person(3, false, rate(-500), &mut StdRng::seed_from_u64(0)),
        Err(SimError::EmptyWeights)
    );
}

#[test]
fn the_rate_follows_the_first_training() {
    let only_shining = SpecialityRate {
        calm: -500,
        shining: 0,
    };
    let mut game = newgame();
    game.reset_distribution();
    let mut rng = StdRng::seed_from_u64(2);
    assert!(game.distribute_person(3, false, only_shining, &mut rng).is_err());
    game.persons[0].friendship = 80;
    game.base.distribution[0].push(0);
    assert!(game.distribute_person(3, false, only_shining, &mut rng).is_ok());
}

#[test]
fn whoever_comes_has_their_card_computed() {
    let mut game = newgame();
    game.base.turn = 20;
    game.add_friend_and_npcs();
    for card in &mut game.base.deck {
        card.effect.xunlian = -1;
    }
    let rates = vec![SpecialityRate::default(); game.persons.len()];
    let mut rng = StdRng::seed_from_u64(8);
    game.distribute_all(&rates, &mut rng).unwrap();
    let mut locked = 0;
    for p in 0..5 {
        let present = game.at_trains(p).iter().any(|b| *b);
        let card = &game.base.deck[p as usize];
        assert_eq!(card.is_locked, present);
        assert_eq!(card.effect.xunlian, if present { 0 } else { -1 });
        locked += card.is_locked as i32;
    }
    assert!(locked > 0);
    // the friend has no training of their own
    assert!(!game.base.deck[5].is_locked);
}

#[test]
fn test_absent_recorded_and_npc_always_present() {
    let mut game = newgame();
    game.base.turn = 2;
    game.add_friend_and_npcs();
    game.add_person(BasePerson {
        person_index: 0,
        person_type: PersonType::Reporter,
        train_type: -1,
        chara_id: 0,
        friendship: 0,
        is_hint: false,
        card_id: None,
    });
    let npc_idx: Vec<i32> = game
        .persons
        .iter()
        .enumerate()
        .filter(|(_, p)| p.person_type == PersonType::Npc)
        .map(|(i, _)| i as i32)
        .collect();
    let rates = vec![SpecialityRate::default(); game.persons.len()];
    let mut rng = StdRng::seed_from_u64(20260825);
    let mut seen_absent = false;
    let mut seen_yayoi_absent = false;
    for _ in 0..24 {
        game.ramen.absent_cards.clear();
        game.distribute_all(&rates, &mut rng).unwrap();
        for &i in &npc_idx {
            assert!(game.at_trains(i).iter().any(|b| *b));
        }
        for &i in &game.ramen.absent_cards {
            let kind = game.persons[i as usize].person_type;
            assert_ne!(kind, PersonType::Npc);
            assert!(!game.at_trains(i).iter().any(|b| *b));
            if kind == PersonType::Yayoi {
                seen_yayoi_absent = true;
            }
        }
        seen_absent |= !game.ramen.absent_cards.is_empty();
    }
    assert!(seen_absent);
    assert!(seen_yayoi_absent);
}

#[test]
fn trainings_hold_five_persons_and_one_friend() {
    let mut game = newgame();
    game.base.turn = 20;
    game.add_friend_and_npcs();
    game.add_reporter();
    let rates = vec![SpecialityRate::default(); game.persons.len()];
    for seed in 0..100 {
        let mut rng = StdRng::seed_from_u64(seed);
        game.distribute_all(&rates, &mut rng).unwrap();
        for row in &game.base.distribution {
            assert!(row.len() <= 5);
            let friends = row.iter().filter(|&&p| game.persons[p as usize].is_friend()).count();
            assert!(friends <= 1);
            let mut sorted = row.clone();
            sorted.sort_unstable();
            sorted.dedup();
            assert_eq!(sorted.len(), row.len());
        }
    }
}

#[test]
fn test_region_clones_absent_priority() {
    let new_game = |absent: Vec<i32>| {
        let mut game = newgame();
        game.base.turn = 2;
        game.add_friend_and_npcs();
        game.reset_distribution();
        game.ramen.absent_cards = absent;
        game
    };
    {
        let mut game = new_game(vec![1]);
        game.distribute_region_clones(&scenario(), 15, &mut StdRng::seed_from_u64(7));
        assert_eq!(game.base.distribution[0], vec![1]);
    }
    {
        let mut game = new_game(vec![1, 3]);
        game.distribute_region_clones(&scenario(), 15, &mut StdRng::seed_from_u64(7));
        let d = &game.base.distribution;
        assert!(d[0].contains(&1));
        assert!(d[2].contains(&3));
        assert!(!d[2].contains(&1));
    }
    {
        let mut game = new_game(vec![]);
        game.distribute_region_clones(&scenario(), 15, &mut StdRng::seed_from_u64(7));
        let d = &game.base.distribution;
        for &t in &[0usize, 2, 4] {
            assert_eq!(d[t].len(), 1);
            assert_eq!(game.persons[d[t][0] as usize].person_type, PersonType::Card);
        }
    }
}

#[test]
fn test_region_clones_per_train_semantics() {
    const SEEDS: u64 = 256;
    const REGION_ID: usize = 6;
    let data = scenario();
    let mut game = newgame();
    game.add_friend_and_npcs();
    game.add_reporter();
    game.deck_can_split = true;

    let cards = game.card_positions();
    assert_eq!(cards.len(), 5);
    let reporter = place_of(&game, PersonType::Reporter) as i32;

    for seed in 0..SEEDS {
        game.base.distribution = vec![vec![]; 5];
        game.distribute_region_clones(&data, REGION_ID, &mut StdRng::seed_from_u64(seed));
        let d = &game.base.distribution;
        assert!(d[2].len() == 1 && d[3].len() == 1);
        assert!([0usize, 1, 4].iter().all(|&t| d[t].is_empty()));
        assert!(d
            .iter()
            .flatten()
            .all(|&p| game.persons[p as usize].person_type == PersonType::Card));
    }

    let mut full_board: Vec<i32> = cards[..4].to_vec();
    full_board.push(reporter);
    for seed in 0..SEEDS {
        game.base.distribution = vec![vec![]; 5];
        game.base.distribution[2] = full_board.clone();
        game.distribute_region_clones(&data, REGION_ID, &mut StdRng::seed_from_u64(seed));
        assert_eq!(game.base.distribution[2].len(), 5);
        assert_eq!(game.base.distribution[3].len(), 1);
    }

    for seed in 0..SEEDS {
        game.base.distribution = vec![vec![]; 5];
        game.base.distribution[2] = vec![cards[0]];
        game.distribute_region_clones(&data, REGION_ID, &mut StdRng::seed_from_u64(seed));
        let d = &game.base.distribution[2];
        assert_eq!(d.iter().filter(|&&p| p == cards[0]).count(), 1);
        assert_eq!(d.len(), 2);
        assert!(d
            .iter()
            .filter(|&&p| p != cards[0])
            .all(|&p| game.persons[p as usize].person_type == PersonType::Card));
    }

    game.base.distribution = vec![vec![]; 5];
    game.distribute_region_clones(&data, 4, &mut StdRng::seed_from_u64(7));
    assert_eq!(game.base.distribution.iter().flatten().count(), 0);
}

#[test]
fn clones_come_from_every_card() {
    let data = scenario();
    let mut seen = [false; 5];
    for seed in 0..256 {
        let mut game = newgame();
        game.reset_distribution();
        game.distribute_region_clones(&data, 6, &mut StdRng::seed_from_u64(seed));
        seen[game.base.distribution[2][0] as usize] = true;
    }
    assert_eq!(seen, [true; 5]);
}

#[test]
fn test_count_training_persons_by_type() {
    let mut game = newgame();
    game.add_friend_and_npcs();
    game.add_reporter();
    let card = place_of(&game, PersonType::Card) as i32;
    let friend = place_of(&game, PersonType::ScenarioCard) as i32;
    let npc = place_of(&game, PersonType::Npc) as i32;
    let yayoi = place_of(&game, PersonType::Yayoi) as i32;
    let reporter = place_of(&game, PersonType::Reporter) as i32;
    let cases: Vec<(Vec<i32>, usize)> = vec![
        (vec![], 0),
        (vec![-1, -1], 0),
        (vec![yayoi], 0),
        (vec![reporter], 0),
        (vec![friend], 1),
        (vec![npc], 1),
        (vec![card, card], 2),
        (vec![friend, friend], 2),
        (vec![card, yayoi, friend, npc, reporter], 3),
        (vec![999], 0),
    ];
    for (dist, want) in cases {
        game.base.distribution = vec![dist, vec![], vec![], vec![], vec![]];
        assert_eq!(game.count_training_persons(0), want);
    }
}

#[test]
fn test_reset_distribution_reuses_capacity() {
    let mut game = RamenGame::default();
    game.reset_distribution();
    assert_eq!(game.base.distribution.len(), 5);
    for train in game.base.distribution.iter_mut() {
        train.extend([0, 0, 0]);
    }
    game.persons.push(BasePerson {
        is_hint: true,
        ..Default::default()
    });
    game.reset_distribution();
    assert_eq!(game.base.distribution.len(), 5);
    assert!(game.base.distribution.iter().all(Vec::is_empty));
    assert!(!game.persons[0].is_hint);
}

#[test]
fn test_sample_bucket_matches_weighted_index() {
    let cases: &[[i32; 5]] = &[
        [100, 100, 100, 100, 100],
        [100, 150, 100, 100, 100],
        [250, 100, 100, 100, 100],
        [100, 100, 100, 100, 350],
        [100, 100, 30, 100, 100],
        [140, 100, 100, 60, 100],
        [100, 100, 100, 100, 100],
    ];
    for weights in cases.iter() {
        let mut rng_new = StdRng::seed_from_u64(42);
        let mut rng_old = rng_new.clone();
        let dist = WeightedIndex::new(weights).unwrap();
        for _ in 0..50_000 {
            let new_bucket = sample_bucket(weights, &mut rng_new).unwrap();
            let old_bucket = dist.sample(&mut rng_old);
            assert_eq!(new_bucket, old_bucket);
        }
    }
}

#[test]
fn a_bucket_without_weight_is_never_drawn() {
    assert_eq!(bucket_of(&[0, 10, 0, 5, 0], 0), 1);
    assert_eq!(bucket_of(&[0, 10, 0, 5, 0], 9), 1);
    assert_eq!(bucket_of(&[0, 10, 0, 5, 0], 10), 3);
    assert_eq!(bucket_of(&[0, 10, 0, 5, 0], 14), 3);
    let mut rng = StdRng::seed_from_u64(3);
    for _ in 0..1000 {
        let b = sample_bucket(&[0, 1, 0, 1, 0], &mut rng).unwrap();
        assert!(b == 1 || b == 3);
    }
    assert_eq!(
        sample_bucket(&[0, 0, 0, 0, 0], &mut rng),
        Err(SimError::EmptyWeights)
    );
}

#[test]
fn test_three_stage_decision_flow() {
    let mut game = newgame();
    game.base.turn = 13;
    game.ramen.feeling_stock = [5, 5, 5];
    game.ramen.special_feeling = 2;
    game.ramen.selected_regions = [0, 1, 2];
    game.stage = RamenStage::RamenSelect;

    let actions = list(&game);
    assert!(!actions.is_empty());
    for a in &actions {
        assert!(matches!(a.operation, Operation::StageOnly));
    }
    let pick_idx = actions.iter().position(|a| a.ramen.is_some()).unwrap();
    let ramen_idx = actions[pick_idx].ramen.unwrap();
    game.apply_selection(&actions[pick_idx]).unwrap();
    assert_eq!(game.ramen.pending_ramen, Some(ramen_idx));
    assert_eq!(game.stage, RamenStage::RamenSelect);

    step(&mut game);
    assert_eq!(game.stage, RamenStage::SpecialSelect);
    let actions = list(&game);
    assert!(!actions.is_empty());
    for a in &actions {
        assert!(matches!(a.operation, Operation::StageOnly));
        assert_eq!(a.ramen, Some(ramen_idx));
        assert!(a.special_targets.is_some());
    }
    let chosen_targets = actions[0].special_targets.unwrap();
    game.apply_selection(&actions[0]).unwrap();
    assert_eq!(game.ramen.pending_special_targets, chosen_targets);

    game.stage = RamenStage::Train;
    let actions = list(&game);
    assert!(actions.len() >= 8);
    for a in &actions {
        assert_eq!(a.ramen, None);
        assert_eq!(a.special_targets, None);
        assert!(!matches!(a.operation, Operation::StageOnly));
    }
}

#[test]
fn test_combined_decision_path_skips_special_select() {
    let data = scenario();
    let mut game = newgame();
    game.base.turn = 2;
    game.ramen.feeling_stock = [5, 5, 5];
    game.ramen.special_feeling = 2;
    game.ramen.selected_regions = [0, 1, 2];
    game.stage = RamenStage::RamenSelect;
    assert!(!game.ramen.combined_decision);

    let combined_actions = game.list_combined_ramen_select_actions(&data);
    assert!(combined_actions.len() >= 27);
    let chosen = combined_actions
        .iter()
        .find(|a| a.ramen == Some(0) && a.special_targets == Some([1, 0, 0]))
        .copied()
        .unwrap();
    game.apply_combined_ramen_decision(&data, chosen.ramen, chosen.special_targets.unwrap())
        .unwrap();
    assert_eq!(game.ramen.pending_ramen, Some(0));
    assert_eq!(game.ramen.pending_special_targets, [1, 0, 0]);
    assert!(game.ramen.combined_decision);
    assert_eq!(game.stage, RamenStage::RamenSelect);

    step(&mut game);
    assert_eq!(game.stage, RamenStage::Train);

    game.ramen.clear_pending();
    assert!(!game.ramen.combined_decision);
    assert_eq!(game.ramen.pending_ramen, None);
    assert_eq!(game.ramen.pending_special_targets, [0, 0, 0]);
}

#[test]
fn test_combined_decision_path_no_ramen() {
    let mut game = newgame();
    game.base.turn = 2;
    game.ramen.feeling_stock = [5, 5, 5];
    game.ramen.special_feeling = 2;
    game.ramen.selected_regions = [0, 1, 2];
    game.stage = RamenStage::RamenSelect;
    game.apply_combined_ramen_decision(&scenario(), None, [2, 2, 2]).unwrap();
    assert_eq!(game.ramen.pending_ramen, None);
    assert_eq!(game.ramen.pending_special_targets, [0, 0, 0]);
    assert!(game.ramen.combined_decision);
    step(&mut game);
    assert_eq!(game.stage, RamenStage::Train);
}

#[test]
fn test_combined_decision_invalid_targets_rejected() {
    let mut game = newgame();
    game.base.turn = 2;
    game.ramen.feeling_stock = [5, 5, 5];
    game.ramen.special_feeling = 2;
    game.ramen.selected_regions = [0, 1, 2];
    game.stage = RamenStage::RamenSelect;
    let result = game.apply_combined_ramen_decision(&scenario(), Some(0), [3, 0, 0]);
    assert_eq!(result, Err(SimError::IllegalTargets { ramen_idx: 0 }));
    assert_eq!(game.ramen.pending_ramen, None);
    assert!(!game.ramen.combined_decision);

    game.stage = RamenStage::Train;
    assert_eq!(
        game.apply_combined_ramen_decision(&scenario(), Some(0), [0, 0, 0]),
        Err(SimError::WrongStage)
    );
}

#[test]
fn test_three_stage_path_unaffected_by_combined_flag() {
    let mut game = newgame();
    game.base.turn = 2;
    game.ramen.feeling_stock = [5, 5, 5];
    game.ramen.special_feeling = 2;
    game.ramen.selected_regions = [0, 1, 2];
    game.stage = RamenStage::RamenSelect;
    let actions = list(&game);
    let pick = actions.iter().position(|a| a.ramen == Some(0)).unwrap();
    game.apply_selection(&actions[pick]).unwrap();
    assert!(!game.ramen.combined_decision);
    assert_eq!(game.ramen.pending_ramen, Some(0));
    step(&mut game);
    assert_eq!(game.stage, RamenStage::SpecialSelect);
}

#[test]
fn both_ways_of_deciding_lead_to_the_same_state() {
    let data = scenario();
    let start = || {
        let mut game = newgame();
        game.base.turn = 30;
        game.ramen.feeling_stock = [5, 5, 5];
        game.ramen.feeling_queue = Vec::new();
        game.ramen.special_feeling = 2;
        game.ramen.selected_regions = [0, 1, 2];
        game.stage = RamenStage::RamenSelect;
        game
    };
    let mut one = start();
    one.apply_combined_ramen_decision(&data, Some(1), [0, 0, 1]).unwrap();
    step(&mut one);

    let mut two = start();
    two.apply_selection(&RamenAction::ramen_select(Some(1))).unwrap();
    step(&mut two);
    two.apply_selection(&RamenAction::special_select(1, [0, 0, 1])).unwrap();
    step(&mut two);

    assert_eq!(one.stage, RamenStage::Train);
    assert_eq!(two.stage, RamenStage::Train);
    assert_eq!(one.ramen.feeling_stock, two.ramen.feeling_stock);
    assert_eq!(one.ramen.feeling_stock, [3, 4, 4]);
    assert_eq!(one.ramen.special_feeling, two.ramen.special_feeling);
    assert_eq!(one.ramen.current_ramen, two.ramen.current_ramen);
    assert_eq!(one.persons, two.persons);
}

#[test]
fn test_select_rmj_choice_by_result() {
    let choices = vec![
        EventChoice {
            result: 2,
            value: ActionValue {
                status_pt: [10, 10, 10, 10, 10, 100],
                vital: 33,
                ..Default::default()
            },
            ..Default::default()
        },
        EventChoice {
            result: 1,
            value: ActionValue {
                status_pt: [5, 5, 5, 5, 5, 50],
                vital: 30,
                ..Default::default()
            },
            ..Default::default()
        },
    ];
    let picked = select_rmj_choice_by_result(&choices, Some(true)).unwrap();
    assert_eq!(picked.result, 2);
    assert_eq!(picked.value.status_pt[5], 100);

    let picked = select_rmj_choice_by_result(&choices, Some(false)).unwrap();
    assert_eq!(picked.result, 1);
    assert_eq!(picked.value.status_pt[5], 50);

    let picked = select_rmj_choice_by_result(&choices, None).unwrap();
    assert_eq!(picked.result, 2);

    assert!(select_rmj_choice_by_result(&vec![], Some(true)).is_none());
}

#[test]
fn test_rmj_event_year() {
    assert_eq!(rmj_event_year(401404), Some(0));
    assert_eq!(rmj_event_year(401405), Some(1));
    assert_eq!(rmj_event_year(401406), Some(2));
    assert_eq!(rmj_event_year(401407), None);
    assert_eq!(rmj_event_year(0), None);
}

fn no_draws() -> EventDraws {
    EventDraws {
        inherit_value: [0; 6],
        inherit_limit: [0; 5],
        qiezhe: false,
    }
}

#[test]
fn test_rmj_event_apply_success() {
    let mut game = newgame();
    game.base.uma.vital = 0;
    game.ramen.rmj_results = vec![true];
    let event = find_rmj_event(&scenario(), 0).unwrap();
    let before = game.base.uma;
    game.apply_event(&event, None, &no_draws());
    let after = game.base.uma;
    for i in 0..5 {
        assert_eq!(after.five_status[i] - before.five_status[i], 10);
    }
    assert_eq!(after.skill_pt - before.skill_pt, 100);
    assert_eq!(after.vital - before.vital, 33);
}

#[test]
fn test_rmj_event_apply_fail() {
    let mut game = newgame();
    game.base.uma.vital = 0;
    game.ramen.rmj_results = vec![false];
    let event = find_rmj_event(&scenario(), 0).unwrap();
    let before = game.base.uma;
    game.apply_event(&event, None, &no_draws());
    let after = game.base.uma;
    for i in 0..5 {
        assert_eq!(after.five_status[i] - before.five_status[i], 5);
    }
    assert_eq!(after.skill_pt - before.skill_pt, 50);
    assert_eq!(after.vital - before.vital, 30);
}

#[test]
fn test_rmj_event_immediate_apply_at_turn_23() {
    let mut game = newgame();
    game.base.uma.vital = 0;
    game.base.turn = 23;
    game.stage = RamenStage::NextTurn;
    assert!(game.base.unresolved_events.is_empty());
    let before = game.base.uma;
    step(&mut game);
    assert_eq!(game.ramen.rmj_results, vec![false]);
    assert_eq!(game.stage, RamenStage::RegionSelect);
    assert_eq!(game.base.uma.skill_pt - before.skill_pt, 50);
    assert_eq!(game.base.uma.five_status[0] - before.five_status[0], 5);
}

#[test]
fn test_scenario_pt_reset_after_rmj() {
    let mut game = newgame();
    game.base.turn = 23;
    game.stage = RamenStage::NextTurn;
    game.ramen.scenario_pt = 2500;
    step(&mut game);
    assert_eq!(game.ramen.scenario_pt, 0);
}

#[test]
fn test_eat_ramen_pt_gain_defers_to_next_turn() {
    let data = scenario();
    let mut game = newgame();
    game.base.turn = 5;
    game.stage = RamenStage::Train;
    game.ramen.scenario_pt = 900;
    game.ramen.eat_count = 0;
    game.ramen.feeling_stock = [5, 5, 5];
    let pt_before = game.ramen.scenario_pt;
    let eat_before = game.ramen.eat_count;
    let baseline = calc_ramen_training_effect(&game, &data, 0, false).xunlian;

    game.ramen.pending_ramen = Some(0);
    game.ramen.pending_special_targets = [0, 0, 0];
    game.ground_ramen_effects(&data, &mut StdRng::seed_from_u64(42)).unwrap();
    assert_eq!(game.ramen.scenario_pt, pt_before);
    assert_eq!(game.ramen.eat_count, eat_before);
    assert_eq!(game.ramen.current_ramen, Some(0));

    let expected = data.ramen_basic_effect[0].xunlian + data.ramen_region_effect[0].xunlian;
    let after = calc_ramen_training_effect(&game, &data, 0, false).xunlian;
    assert_eq!(after - baseline, expected);

    game.stage = RamenStage::NextTurn;
    step(&mut game);
    assert_eq!(game.ramen.scenario_pt, pt_before + 300);
    assert_eq!(game.ramen.eat_count, 1);
}

#[test]
fn test_rmj_archives_yearly_counters_before_reset() {
    for (turn, year_idx) in [(23, 0usize), (47, 1), (71, 2)] {
        let mut game = newgame();
        game.base.turn = turn;
        game.stage = RamenStage::NextTurn;
        game.ramen.scenario_pt = 1234;
        game.ramen.eat_count = 7;
        step(&mut game);
        assert_eq!(game.ramen.yearly_scenario_pt[year_idx], 1234);
        assert_eq!(game.ramen.yearly_eat_count[year_idx], 7);
        assert_eq!(game.ramen.scenario_pt, 0);
        assert_eq!(game.ramen.eat_count, 0);
        for other in 0..3 {
            if other == year_idx {
                continue;
            }
            assert_eq!(game.ramen.yearly_scenario_pt[other], 0);
            assert_eq!(game.ramen.yearly_eat_count[other], 0);
        }
    }
}

fn nothing_random() -> RandomEvents {
    RandomEvents {
        roll: 3,
        card_event: None,
        uma_event: None,
    }
}

fn generated(turn: i32) -> Vec<EventData> {
    let mut game = newgame();
    game.base.turn = turn;
    game.generate_events(&scenario(), &constants(), &story(), &nothing_random())
}

#[test]
fn test_generate_events_uma_debut() {
    let events = generated(0);
    assert!(!events.is_empty());
    assert_eq!(events[0].id, 400000400);
}

#[test]
fn test_generate_events_classic_newyear() {
    let events = generated(24);
    assert!(!events.is_empty());
    assert_eq!(events[0].id, 4009);
}

#[test]
fn test_generate_events_ancient_newyear() {
    let events = generated(48);
    assert!(!events.is_empty());
    assert_eq!(events[0].id, 4010);
}

#[test]
fn chance_brings_events_of_cards_characters_or_a_loss() {
    let event = |id: u32| {
        Some(EventData {
            id,
            ..Default::default()
        })
    };
    let game = {
        let mut game = newgame();
        game.base.turn = 13;
        game
    };
    for (roll, want) in [(0usize, vec![1u32]), (1, vec![2]), (2, vec![90]), (3, vec![])] {
        let random = RandomEvents {
            roll,
            card_event: event(1),
            uma_event: event(2),
        };
        let got = game.generate_events(&scenario(), &constants(), &story(), &random);
        let ids: Vec<u32> = got.iter().map(|e| e.id).collect();
        assert_eq!(ids, want);
    }
    let quiet = GameConstants {
        no_event_turns: vec![13],
        ..constants()
    };
    let random = RandomEvents {
        roll: 0,
        card_event: event(1),
        uma_event: event(2),
    };
    assert!(game.generate_events(&scenario(), &quiet, &story(), &random).is_empty());
}

#[test]
fn test_add_mandatory_events_ticket_at_48() {
    let mut game = newgame();
    game.base.turn = 48;
    let mut events = vec![];
    game.add_mandatory_events(&scenario(), &story(), &mut events).unwrap();
    assert!(game.base.unresolved_events.iter().any(|e| e.id == 4011));
    assert!(events.is_empty());
}

#[test]
fn a_missing_lottery_is_refused() {
    let mut game = newgame();
    game.base.turn = 48;
    let mut events = vec![];
    let mut tables = story();
    tables.system_events.retain(|e| e.key != "ticket");
    assert_eq!(
        game.add_mandatory_events(&scenario(), &tables, &mut events),
        Err(SimError::MissingEvent)
    );
    assert!(game.base.unresolved_events.is_empty());
}

#[test]
fn test_add_mandatory_events_ending_at_77() {
    let mut game = newgame();
    game.base.turn = 77;
    let mut events = vec![];
    game.add_mandatory_events(&scenario(), &story(), &mut events).unwrap();
    let ids: Vec<u32> = game.base.unresolved_events.iter().map(|e| e.id).collect();
    assert!(ids.contains(&5011));
    assert!(ids.contains(&401407));
}

#[test]
fn the_friend_joins_new_year_and_the_end_once_outings_are_open() {
    let mut game = newgame();
    game.base.friend.out_state = FriendOutState::AfterUnlock;
    game.base.turn = 24;
    let mut events = vec![];
    game.add_mandatory_events(&scenario(), &story(), &mut events).unwrap();
    assert_eq!(events.iter().map(|e| e.id).collect::<Vec<u32>>(), vec![830305001]);
    game.base.turn = 77;
    let mut events = vec![];
    game.add_mandatory_events(&scenario(), &story(), &mut events).unwrap();
    assert!(game.base.unresolved_events.iter().any(|e| e.id == 830305002));
}

fn rates() -> EventRates {
    EventRates {
        friend_unlock_low: 10_000,
        friend_unlock_high: 0,
        qiezhe_normal: 0,
        refresh_end: [0, 0, 0, 0, 0, 0, 10_000],
    }
}

#[test]
fn test_super_ramen_base_effect_vital_motivation() {
    let data = scenario();
    let mut game = newgame();
    game.base.turn = 72;
    game.add_friend_and_npcs();
    game.ramen.super_ramen = Some(1);
    game.base.uma.vital = 50;
    game.base.uma.motivation = 2;
    let before = game.base.uma;
    game.run_begin_prefix();
    let events = game
        .run_begin_suffix(
            &data,
            &constants(),
            &story(),
            &rates(),
            &nothing_random(),
            &mut StdRng::seed_from_u64(1),
        )
        .unwrap();
    assert!(events.is_empty());
    game.finish_begin(&data);
    let after = game.base.uma;
    assert_eq!(after.vital - before.vital, 20);
    assert_eq!(after.motivation - before.motivation, 1);
    assert_eq!(after.race_bonus - before.race_bonus, 100);
}

#[test]
fn test_super_ramen_saihou_one_time_only() {
    let data = scenario();
    let mut game = newgame();
    game.add_friend_and_npcs();
    game.ramen.super_ramen = Some(1);
    let initial = game.base.uma.race_bonus;
    for turn in 72..=75 {
        game.base.turn = turn;
        game.base.uma.vital = 50;
        game.base.uma.motivation = 2;
        let before = game.base.uma.race_bonus;
        game.run_begin_prefix();
        game.run_begin_suffix(
            &data,
            &constants(),
            &story(),
            &rates(),
            &nothing_random(),
            &mut StdRng::seed_from_u64(1),
        )
        .unwrap();
        game.finish_begin(&data);
        let want = if turn == 72 { 100 } else { 0 };
        assert_eq!(game.base.uma.race_bonus - before, want);
    }
    assert_eq!(game.base.uma.race_bonus, initial + 100);
}

#[test]
fn outings_open_by_chance() {
    let mut game = newgame();
    game.base.turn = 20;
    game.add_friend_and_npcs();
    let friend = place_of(&game, PersonType::ScenarioCard);
    game.base.friend.person_index = friend as i32;
    game.base.friend.out_state = FriendOutState::BeforeUnlock;
    game.persons[friend].friendship = 59;
    let mut rng = StdRng::seed_from_u64(1);
    let event = game.try_friend_unlock(&scenario(), &constants(), &rates(), &mut rng);
    assert_eq!(event.map(|e| e.id), Some(830305103));
    game.persons[friend].friendship = 60;
    let event = game.try_friend_unlock(&scenario(), &constants(), &rates(), &mut rng);
    assert!(event.is_none());
    game.base.friend.out_state = FriendOutState::AfterUnlock;
    game.persons[friend].friendship = 0;
    let event = game.try_friend_unlock(&scenario(), &constants(), &rates(), &mut rng);
    assert!(event.is_none());
}

#[test]
fn a_refreshed_mind_restores_vitality_until_it_ends() {
    let mut game = newgame();
    game.base.uma.vital = 40;
    game.base.uma.flags.refresh_mind = 1;
    let mut rng = StdRng::seed_from_u64(1);
    assert!(!game.update_refresh_mind(&rates(), &mut rng));
    assert_eq!(game.base.uma.vital, 45);
    assert_eq!(game.base.uma.flags.refresh_mind, 2);
    game.base.uma.flags.refresh_mind = 9;
    assert!(game.update_refresh_mind(&rates(), &mut rng));
    assert_eq!(game.base.uma.vital, 50);
    assert_eq!(game.base.uma.flags.refresh_mind, 0);
}

#[test]
fn fresh_stocks_depend_on_the_friend() {
    let mut game = newgame();
    game.init_feeling_stocks();
    assert_eq!(game.ramen.feeling_stock, [2, 2, 2]);
    assert_eq!(game.ramen.special_feeling, 2);
    assert_eq!(game.ramen.feeling_queue.len(), 6);
    game.init_feeling_stocks();
    assert_eq!(game.ramen.special_feeling, 4);
    game.init_feeling_stocks();
    assert_eq!(game.ramen.special_feeling, 4);
    game.base.deck.pop();
    game.ramen.special_feeling = 0;
    game.init_feeling_stocks();
    assert_eq!(game.ramen.feeling_stock, [0, 0, 0]);
    assert_eq!(game.ramen.special_feeling, 1);
}

fn make_hint_special_test_game() -> RamenGame {
    let mut game = newgame();
    game.base.turn = 60;
    game.deck_can_split = true;
    game
}

#[test]
fn test_hint_special_inactive_without_ramen() {
    let data = scenario();
    let game = make_hint_special_test_game();
    assert!(!game.calc_hint_special_active(&data, game.ramen.current_ramen));
    for train in 0..5 {
        assert!(!game.is_hint_special_active_for_train(&data, train));
    }
}

#[test]
fn test_hint_special_inactive_year1_2() {
    let data = scenario();
    let mut game = make_hint_special_test_game();
    game.base.turn = 5;
    game.ramen.current_ramen = Some(5);
    assert!((0..5).all(|t| !game.is_hint_special_active_for_train(&data, t)));
    game.base.turn = 30;
    assert!((0..5).all(|t| !game.is_hint_special_active_for_train(&data, t)));
}

#[test]
fn test_hint_special_active_year3() {
    let data = scenario();
    let mut game = make_hint_special_test_game();
    game.base.turn = 60;
    game.ramen.current_ramen = Some(5);
    assert!(game.calc_hint_special_active(&data, game.ramen.current_ramen));
    let at_trains = game.calc_hint_special_at_trains(&data, game.ramen.current_ramen);
    assert_eq!(at_trains, vec![0, 1, 2, 3, 4]);
    for train in 0..5 {
        assert!(game.is_hint_special_active_for_train(&data, train));
    }
}

#[test]
fn test_hint_special_only_at_listed_trains() {
    let data = scenario();
    let mut game = make_hint_special_test_game();
    game.base.turn = 60;
    game.ramen.current_ramen = Some(0);
    assert!(game.is_hint_special_active_for_train(&data, 0));
    for train in 1..5 {
        assert!(!game.is_hint_special_active_for_train(&data, train));
    }
    game.ramen.current_ramen = None;
    for ramen in [None, Some(0), Some(5)] {
        let mut reference = game.clone();
        reference.ramen.current_ramen = ramen;
        for train in 0..5 {
            assert_eq!(
                game.is_hint_special_active_for_train_with_ramen(&data, train, ramen),
                reference.is_hint_special_active_for_train(&data, train)
            );
        }
    }
    game.ramen.current_ramen = Some(data.ramen_region_effect.len());
    assert!((0..5).all(|t| !game.is_hint_special_active_for_train(&data, t)));
}

#[test]
fn test_hint_special_inactive_low_card_types() {
    let data = scenario();
    let mut game = make_hint_special_test_game();
    game.base.turn = 60;
    game.ramen.current_ramen = Some(5);
    game.card_type_count = [1, 1, 1, 0, 0, 0, 0];
    game.deck_can_split = false;
    assert!((0..5).all(|t| !game.is_hint_special_active_for_train(&data, t)));
}

#[test]
fn hints_are_forced_where_the_bowl_covers() {
    let data = scenario();
    let mut game = make_hint_special_test_game();
    game.base.distribution = vec![vec![0, 1], vec![2], vec![], vec![], vec![]];
    game.ramen.current_ramen = Some(0);
    let none = GameConstants {
        base_hint_rate: 0,
        ..Default::default()
    };
    game.distribute_hint(&data, &none, &mut StdRng::seed_from_u64(1));
    assert!(game.persons[0].is_hint && game.persons[1].is_hint);
    assert!(!game.persons[2].is_hint);
    let always = GameConstants {
        base_hint_rate: 10_000,
        ..Default::default()
    };
    game.ramen.current_ramen = None;
    game.ramen.scenario_pt = 0;
    game.distribute_hint(&data, &always, &mut StdRng::seed_from_u64(1));
    assert!((0..5).all(|i| game.persons[i].is_hint));
    assert!(!game.persons[5].is_hint);
}

#[test]
fn the_hint_bonus_adds_tier_and_settlement() {
    let data = scenario();
    let mut game = newgame();
    game.base.turn = 30;
    game.ramen.scenario_pt = 1000;
    assert_eq!(game.calc_hint_bonus_pct(&data), 50);
    game.ramen.rmj_results = vec![true];
    assert_eq!(game.calc_hint_bonus_pct(&data), 80);
    game.ramen.rmj_results = vec![false];
    assert_eq!(game.calc_hint_bonus_pct(&data), 60);
}

#[test]
fn test_year1_region_select_uses_full_enumeration() {
    let mut game = newgame();
    game.add_friend_and_npcs();
    game.base.turn = 2;
    game.stage = RamenStage::RegionSelect;
    assert_eq!(list(&game).len(), 10);
    game.run_region_select(RamenRegionStrategy::All, None, 0).unwrap();
    assert_eq!(game.ramen.selected_regions, [0, 1, 2]);
}

#[test]
fn test_skip_ramen_select_for_turn_0_1_and_super_ramen() {
    let stage_after = |turn: i32| {
        let mut game = newgame();
        game.add_friend_and_npcs();
        game.base.turn = turn;
        game.stage = RamenStage::Distribute;
        step(&mut game);
        game.stage
    };
    assert_eq!(stage_after(0), RamenStage::Train);
    assert_eq!(stage_after(1), RamenStage::Train);
    assert_eq!(stage_after(2), RamenStage::RamenSelect);
    for turn in [72, 73, 74, 75, 76, 77] {
        assert_eq!(stage_after(turn), RamenStage::Train);
    }
    assert_eq!(stage_after(71), RamenStage::RamenSelect);
}

#[test]
fn test_turn2_stage_sequence() {
    let mut game = newgame();
    game.base.turn = 2;
    game.stage = RamenStage::Begin;
    game.run_begin_prefix();
    step(&mut game);
    assert_eq!(game.stage, RamenStage::RegionSelect);
    assert_eq!(game.turn(), 2);
    let actions = list(&game);
    assert!(actions.iter().all(|a| matches!(a.operation, Operation::RegionSelect(_))));
    assert_eq!(actions.len(), 10);
    game.run_region_select(RamenRegionStrategy::All, None, 0).unwrap();
    assert_ne!(game.ramen.yearly_selected_regions[0], [0, 0, 0]);
    step(&mut game);
    assert_eq!(game.stage, RamenStage::BeginAfterRegionSelect);
    assert_eq!(game.turn(), 2);

    let persons = game.persons.len();
    let special = game.ramen.special_feeling;
    let regions = game.ramen.yearly_selected_regions[0];
    game.run_begin_suffix(
        &scenario(),
        &constants(),
        &story(),
        &rates(),
        &nothing_random(),
        &mut StdRng::seed_from_u64(1),
    )
    .unwrap();
    game.finish_begin(&scenario());
    step(&mut game);
    assert_eq!(game.stage, RamenStage::Distribute);
    assert_eq!(game.turn(), 2);
    assert_eq!(game.persons.len(), persons);
    assert_eq!(game.ramen.special_feeling, special);
    assert_eq!(game.ramen.yearly_selected_regions[0], regions);
}

#[test]
fn test_non_turn2_has_no_begin_after_region_select() {
    for turn in [0, 1, 3, 24] {
        let mut game = newgame();
        game.base.turn = turn;
        game.stage = RamenStage::Begin;
        step(&mut game);
        assert_eq!(game.stage, RamenStage::Distribute);
    }
    for turn in [23, 47] {
        let mut game = newgame();
        game.base.turn = turn;
        game.stage = RamenStage::RegionSelect;
        step(&mut game);
        assert_eq!(game.turn(), turn + 1);
        assert_eq!(game.stage, RamenStage::Begin);
    }
}

#[test]
fn test_train_actions_independent_of_selection_stage() {
    let mut game = newgame();
    game.stage = RamenStage::RamenSelect;
    game.ramen.pending_ramen = Some(0);
    game.ramen.pending_special_targets = [1, 0, 0];
    // a race of the career on turn eleven
    game.base.uma.career_races = 1;
    let actions = game.list_train_actions();
    assert_eq!(
        actions.iter().filter(|a| matches!(a.operation, Operation::Train(_))).count(),
        5
    );
    assert!(actions.iter().any(|a| a.operation == Operation::Rest));
    game.base.turn = 11;
    let race = game.list_train_actions();
    assert_eq!(race.len(), 1);
    assert_eq!(race[0].operation, Operation::Race);
    assert_eq!(game.stage, RamenStage::RamenSelect);
    assert_eq!(game.ramen.pending_ramen, Some(0));
    assert_eq!(game.ramen.pending_special_targets, [1, 0, 0]);
}

#[test]
fn test_year3_fixed_list_actions_single_candidate() {
    let fixed = vec![[10usize, 15, 19]];
    let y1 = region_select_combos(0, RamenRegionStrategy::Fixed, Some(&fixed)).unwrap();
    assert_eq!(y1.len(), 10);
    let y2 = region_select_combos(1, RamenRegionStrategy::Fixed, Some(&fixed)).unwrap();
    assert_eq!(y2.len(), 10);
    let y3_all = region_select_combos(2, RamenRegionStrategy::All, None).unwrap();
    assert_eq!(y3_all.len(), 120);
    let y3_fixed = region_select_combos(2, RamenRegionStrategy::Fixed, Some(&fixed)).unwrap();
    assert_eq!(y3_fixed.len(), 1);
    assert_eq!(y3_fixed.first(), Some(&[10, 15, 19]));
    assert_eq!(
        region_select_combos(2, RamenRegionStrategy::Fixed, None),
        Err(SimError::NoFixedRegions)
    );
    let empty: Vec<[usize; 3]> = vec![];
    assert_eq!(
        region_select_combos(2, RamenRegionStrategy::Fixed, Some(&empty)),
        Err(SimError::NoFixedRegions)
    );
}

#[test]
fn answers_outside_the_list_are_refused() {
    let data = scenario();
    let mut game = newgame();
    game.base.turn = 2;
    game.stage = RamenStage::RegionSelect;
    assert_eq!(
        game.run_region_select(RamenRegionStrategy::All, None, 10),
        Err(SimError::ChoiceOutOfRange { selection: 10, len: 10 })
    );
    game.stage = RamenStage::SuperRamenSelect;
    assert_eq!(
        game.run_super_ramen_select(&data, 3),
        Err(SimError::ChoiceOutOfRange { selection: 3, len: 3 })
    );
    game.run_super_ramen_select(&data, 2).unwrap();
    assert_eq!(game.ramen.super_ramen, Some(2));
    let no_options = RamenScenarioData::default();
    assert_eq!(
        game.run_super_ramen_select(&no_options, 0),
        Err(SimError::NoCandidates)
    );
}

#[test]
fn the_third_year_can_be_fixed() {
    let fixed = vec![[10usize, 15, 19]];
    let mut game = newgame();
    game.base.turn = 47;
    game.stage = RamenStage::RegionSelect;
    assert!(game.region_is_fixed(RamenRegionStrategy::Fixed));
    assert!(!game.region_is_fixed(RamenRegionStrategy::All));
    game.run_region_select(RamenRegionStrategy::Fixed, Some(&fixed), 99).unwrap();
    assert_eq!(game.ramen.selected_regions, [10, 15, 19]);
    assert_eq!(game.ramen.yearly_selected_regions[2], [10, 15, 19]);
}

#[test]
fn selections_belong_to_their_stage() {
    let mut game = newgame();
    game.stage = RamenStage::Distribute;
    assert_eq!(
        game.apply_selection(&RamenAction::ramen_select(Some(1))),
        Err(SimError::WrongStage)
    );
    game.stage = RamenStage::SpecialSelect;
    assert_eq!(
        game.list_actions(&scenario(), RamenRegionStrategy::All, None),
        Err(SimError::NoPendingRamen)
    );
    assert_eq!(
        RamenState::rmj_archive_year_idx(24),
        Err(SimError::TurnOutOfRange { turn: 24 })
    );
    assert_eq!(
        RamenState::region_archive_year_idx(3),
        Err(SimError::TurnOutOfRange { turn: 3 })
    );
    assert_eq!(RamenState::region_archive_year_idx(47), Ok(2));
    assert_eq!(
        game.ramen.archive_year_counters(3),
        Err(SimError::YearOutOfRange { year_idx: 3 })
    );
}

#[test]
fn waiting_events_are_taken_once() {
    let mut game = newgame();
    game.base.unresolved_events = vec![rmj_story(1), rmj_story(2)];
    let events = game.take_unresolved_events();
    assert_eq!(events.iter().map(|e| e.id).collect::<Vec<u32>>(), vec![1, 2]);
    assert!(game.take_unresolved_events().is_empty());
}

#[test]
fn events_take_effect_in_order_and_are_counted() {
    let mut game = newgame();
    game.base.uma.vital = game.base.uma.max_vital - 5;
    for (id, vital) in [(90000u32, 20), (90001, -10)] {
        let choice = EventChoice {
            value: ActionValue {
                vital,
                ..Default::default()
            },
            ..Default::default()
        };
        let event = EventData {
            id,
            choices: vec![vec![choice]],
            ..Default::default()
        };
        game.apply_event(&event, Some(choice), &no_draws());
    }
    assert_eq!(game.base.uma.vital, game.base.uma.max_vital - 10);
    assert_eq!(game.base.events.get(&90000), Some(&1));
    assert_eq!(game.base.events.get(&90001), Some(&1));
}

#[test]
fn the_player_is_asked_only_where_there_is_a_choice() {
    let mut event = EventData {
        player_select: true,
        choices: vec![vec![], vec![]],
        ..Default::default()
    };
    assert!(event_asks(&event));
    assert_eq!(event_option(&event, 1), Ok(1));
    assert_eq!(
        event_option(&event, 2),
        Err(SimError::ChoiceOutOfRange { selection: 2, len: 2 })
    );
    event.choices.pop();
    assert!(!event_asks(&event));
    assert_eq!(event_option(&event, 7), Ok(0));
    event.choices.push(vec![]);
    event.player_select = false;
    assert_eq!(event_option(&event, 7), Ok(0));
}

#[test]
fn persons_join_as_the_turns_pass() {
    let mut game = newgame();
    assert_eq!(game.persons.len(), 6);
    assert_eq!(game.persons[5].person_type, PersonType::Yayoi);
    game.base.turn = 2;
    game.manage_persons_on_turn_start();
    assert_eq!(game.persons.len(), 12);
    assert_eq!(game.persons[6].person_type, PersonType::ScenarioCard);
    assert_eq!(game.deck_index_of(6), Some(5));
    assert_eq!(game.deck_index_of(5), None);
    game.manage_persons_on_turn_start();
    assert_eq!(game.persons.len(), 12);
    game.base.turn = 12;
    game.manage_persons_on_turn_start();
    assert_eq!(game.persons.len(), 13);
    assert_eq!(game.persons[12].person_type, PersonType::Reporter);
    assert_eq!(game.persons[12].person_index, 12);
}

#[test]
fn a_bond_is_kept_by_person_and_card_alike() {
    let mut game = newgame();
    game.add_friend_and_npcs();
    game.add_friendship(6, 30);
    assert_eq!(game.persons[6].friendship, 50);
    assert_eq!(game.base.deck[5].friendship, 50);
    game.add_friendship(5, 30);
    assert_eq!(game.persons[5].friendship, 30);
    assert_eq!(game.base.deck[5].friendship, 50);
    game.add_friendship(6, 80);
    assert_eq!(game.persons[6].friendship, 100);
    assert_eq!(game.base.deck[5].friendship, 100);
}

#[test]
fn a_bowl_raises_bonds_once() {
    let data = scenario();
    let mut game = newgame();
    game.add_friend_and_npcs();
    game.base.turn = 30;
    game.ramen.current_ramen = Some(0);
    game.apply_ramen_friendship(&data);
    assert_eq!(game.persons[0].friendship, 23);
    assert_eq!(game.base.deck[0].friendship, 23);
    assert_eq!(game.persons[6].friendship, 23);
    assert_eq!(game.persons[5].friendship, 0);
    assert_eq!(game.persons[7].friendship, 0);
}

#[test]
fn scenario_events_are_found_by_number() {
    let data = scenario();
    assert_eq!(find_scenario_event(&data, 401407).map(|e| e.id), Some(401407));
    assert!(find_scenario_event(&data, 1).is_none());
    for year in 0..3usize {
        let e = find_rmj_event(&data, year).unwrap();
        assert_eq!(rmj_event_year(e.id), Some(year));
    }
    assert!(find_rmj_event(&data, 3).is_none());
}

#[test]
fn the_last_turn_ends_the_career() {
    let mut game = newgame();
    game.base.turn = 77;
    game.stage = RamenStage::NextTurn;
    assert!(!step(&mut game));
    let mut game = newgame();
    game.base.turn = 10;
    game.stage = RamenStage::NextTurn;
    assert!(step(&mut game));
    assert_eq!(game.turn(), 11);
    assert_eq!(game.stage, RamenStage::Begin);
}

#[test]
fn a_round_shows_every_kind_and_seats_everyone_anew() {
    let data = scenario();
    let mut game = newgame();
    game.base.turn = 20;
    game.add_friend_and_npcs();
    let rates = vec![SpecialityRate::default(); game.persons.len()];
    let mut rng = StdRng::seed_from_u64(5);
    game.run_distribute(&data, &constants(), &rates, &mut rng).unwrap();
    assert_eq!(game.base.distribution.len(), 5);
    assert!(game.ramen.train_feeling_type.is_some());
    let seated: usize = game.base.distribution.iter().map(|r| r.len()).sum();
    assert_eq!(seated + game.ramen.absent_cards.len(), game.persons.len());
    // nobody comes on the turn of a race
    game.base.uma.career_races = 1 << 9;
    game.run_distribute(&data, &constants(), &rates, &mut rng).unwrap();
    assert!(game.base.distribution.iter().all(|r| r.is_empty()));
}

#[test]
fn the_level_of_a_training_rises_with_use() {
    let mut game = newgame();
    game.base.turn = 10;
    game.base.train_level_count = [0, 4, 15, 100, 8];
    assert_eq!(game.train_level(0), 1);
    assert_eq!(game.train_level(1), 2);
    assert_eq!(game.train_level(2), 4);
    assert_eq!(game.train_level(3), 5);
    game.ramen.train_level_bonus = 2;
    assert_eq!(game.train_level(0), 3);
    game.base.turn = 37;
    assert_eq!(game.train_level(0), 5);
}

#[test]
fn cards_raise_only_what_a_training_gives() {
    let mut buffs = CardTrainingEffect::default();
    buffs.bonus = [1, 2, 3, 4, 5, 6];
    buffs.wiz_vital_bonus = 4;
    let v = training_base(&[10, 0, 5, 0, 0, 2, -21], &buffs, 0, true).unwrap();
    assert_eq!(v.status_pt, [11, 0, 8, 0, 0, 8]);
    assert_eq!(v.vital, -21);
    let v = training_base(&[0, 0, 0, 0, 9, 4, 5], &buffs, 4, true).unwrap();
    assert_eq!(v.status_pt, [0, 0, 0, 0, 14, 10]);
    assert_eq!(v.vital, 9);
    let v = training_base(&[0, 0, 0, 0, 9, 4, 5], &buffs, 4, false).unwrap();
    assert_eq!(v.vital, 5);
    assert_eq!(
        training_base(&[0; 7], &buffs, 5, false),
        Err(SimError::TrainOutOfRange { train: 5 })
    );
}

#[test]
fn operations_are_listed_by_what_is_possible() {
    let mut game = newgame();
    game.base.turn = 13;
    game.base.uma.flags.ill = true;
    let ops: Vec<Operation> = game.list_train_actions().iter().map(|a| a.operation).collect();
    assert!(ops.contains(&Operation::Clinic));
    assert!(ops.contains(&Operation::Race));
    assert!(ops.contains(&Operation::Train(TrainingType::Guts)));
    assert!(!ops.contains(&Operation::FriendOuting));
    game.base.turn = 12;
    let ops: Vec<Operation> = game.list_train_actions().iter().map(|a| a.operation).collect();
    assert!(!ops.contains(&Operation::Race));
}

#[test]
fn a_card_is_picked_while_there_is_one() {
    let mut game = newgame();
    game.base.turn = 20;
    game.add_friend_and_npcs();
    let mut seen = [false; 5];
    for seed in 0..100 {
        let p = game.pick_card_person(&mut StdRng::seed_from_u64(seed)).unwrap();
        assert_eq!(game.persons[p as usize].person_type, PersonType::Card);
        seen[p as usize] = true;
    }
    assert_eq!(seen, [true; 5]);
    game.persons.retain(|p| p.person_type != PersonType::Card);
    assert_eq!(game.pick_card_person(&mut StdRng::seed_from_u64(1)), None);
}

#[test]
fn nobody_draws_a_training_without_a_share() {
    let mut game = newgame();
    game.base.turn = 20;
    game.add_friend_and_npcs();
    let rates = vec![rate(-100); game.persons.len()];
    for seed in 0..50 {
        game.distribute_all(&rates, &mut StdRng::seed_from_u64(seed)).unwrap();
        for (t, row) in game.base.distribution.iter().enumerate() {
            assert!(row.iter().all(|&p| game.persons[p as usize].train_type != t as i32));
        }
    }
    // with such a drop nobody but the director stays away
    game.base.absent_rate_drop = 1000;
    game.ramen.absent_cards.clear();
    for seed in 0..50 {
        game.distribute_all(&rates, &mut StdRng::seed_from_u64(seed)).unwrap();
    }
    assert!(!game.ramen.absent_cards.is_empty());
    for &p in &game.ramen.absent_cards {
        assert_eq!(game.persons[p as usize].person_type, PersonType::Yayoi);
    }
    let rates = vec![rate(-500); game.persons.len()];
    assert_eq!(
        game.run_distribute(&scenario(), &constants(), &rates, &mut StdRng::seed_from_u64(1)),
        Err(SimError::EmptyWeights)
    );
}

#[test]
fn a_beginning_draws_only_what_has_a_chance() {
    let mut tables = story();
    tables.system_events.retain(|e| e.key != "ticket");
    let mut game = newgame();
    game.add_friend_and_npcs();
    let friend = place_of(&game, PersonType::Yayoi);
    game.base.friend.person_index = friend as i32;
    game.base.friend.out_state = FriendOutState::BeforeUnlock;
    game.persons[friend].friendship = 0;
    game.base.turn = 48;
    game.base.uma.vital = 50;
    game.base.uma.flags.refresh_mind = 6;
    let mut rng = StdRng::seed_from_u64(1);
    // the lottery is missing: the draws have been made, no event has been added
    let r = game.run_begin_suffix(
        &scenario(),
        &constants(),
        &tables,
        &rates(),
        &nothing_random(),
        &mut rng,
    );
    assert_eq!(r.err(), Some(SimError::MissingEvent));
    assert_eq!(game.base.uma.flags.refresh_mind, 0);
    assert_eq!(game.base.uma.vital, 55);
    assert!(game.base.unresolved_events.is_empty());

    game.base.turn = 30;
    let out = game.run_begin_draws(&scenario(), &constants(), &rates(), &mut rng);
    assert_eq!(out.as_ref().map(|e| e.id), Some(830305103));
    let list = game
        .choose_begin_events(&scenario(), &constants(), &tables, out, &nothing_random())
        .unwrap();
    assert_eq!(list.iter().map(|e| e.id).collect::<Vec<_>>(), vec![830305103]);

    // at a higher bond this table gives no chance
    game.persons[friend].friendship = 60;
    for seed in 0..50 {
        let mut rng = StdRng::seed_from_u64(seed);
        assert!(game
            .run_begin_draws(&scenario(), &constants(), &rates(), &mut rng)
            .is_none());
    }
    // a mind that is not refreshed does not end
    assert_eq!(game.base.uma.flags.refresh_mind, 0);
    assert_eq!(game.base.uma.vital, 55);
}

#[test]
fn random_events_are_drawn_where_no_story_is_told() {
    let draws = |turn: i32, quiet: bool| {
        let mut game = newgame();
        game.base.turn = turn;
        let mut cons = constants();
        if quiet {
            cons.no_event_turns = vec![turn];
        }
        game.draws_random_event(&scenario(), &cons, &story())
    };
    assert!(draws(10, false));
    assert!(!draws(10, true));
    // the scenario's story and the shared one
    assert!(!draws(0, false));
    assert!(!draws(24, false));
}

#[test]
fn the_hidden_hint_works_where_the_bowl_covers() {
    let data = scenario();
    let mut game = make_hint_special_test_game();
    assert!(game.calc_hint_special_active(&data, Some(6)));
    assert_eq!(game.calc_hint_special_at_trains(&data, Some(6)), vec![2, 3]);
    assert!(game.calc_hint_special_at_trains(&data, None).is_empty());
    assert!(game.calc_hint_special_at_trains(&data, Some(20)).is_empty());
    game.card_type_count = [3, 2, 1, 0, 0, 0, 0];
    assert!(!game.calc_hint_special_active(&data, Some(6)));
}

#[test]
fn persons_stand_in_the_order_in_which_they_are_sent() {
    let rank = |kind: PersonType| match kind {
        PersonType::Yayoi => 0,
        PersonType::Reporter => 1,
        PersonType::ScenarioCard => 2,
        PersonType::TeamCard => 3,
        PersonType::Card => 4,
        _ => 5,
    };
    let mut game = newgame();
    game.base.turn = 20;
    game.add_friend_and_npcs();
    let rates = vec![SpecialityRate::default(); game.persons.len()];
    for seed in 0..50 {
        game.ramen.absent_cards.clear();
        game.distribute_all(&rates, &mut StdRng::seed_from_u64(seed)).unwrap();
        let key = |p: i32| (rank(game.persons[p as usize].person_type), p);
        for row in game.base.distribution.iter().chain([&game.ramen.absent_cards]) {
            for pair in row.windows(2) {
                assert!(key(pair[0]) < key(pair[1]));
            }
        }
    }
}
