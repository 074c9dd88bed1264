use std::collections::BTreeMap;
use umasim::error::SimError;
use umasim::game::base::person::{BasePerson, Person, PersonType};
use umasim::game::support_card::{CardTrainingEffect, EffectTexts, Stack, SupportCard};
use umasim::game::uma::{ScoreParts, Uma, UmaFlags};
use umasim::gamedata::constants::{div_trunc_clip, GameConstants};
use umasim::gamedata::data::GameData;
use umasim::gamedata::event::{
    find_named, ActionValue, ChoiceResult, EventChoice, EventData, NamedEvent,
};
use umasim::gamedata::ramen::RamenScenarioData;
use umasim::gamedata::support_card::{CardValue, SupportCardData};
use umasim::gamedata::uma::{has_bit, with_bit, FreeRaceData, UmaData};
use umasim::single::{round_to, scale_score, Single, DOUBLE, SINGLE};
use umasim::text::{append_int, decimal, head_of, join, tail_after};

fn single(x: f32) -> Single {
    Single::from_bits(x.to_bits()).unwrap()
}

fn constants() -> GameConstants {
    GameConstants {
        five_status_final_score: (0..101).map(|i| i * i).collect(),
        hint_pt_rate: single(6.5),
        pt_score_rate: single(2.0),
        pt_favor_rate: single(1.5),
        ..Default::default()
    }
}

/// The seven parts, computed from the formula alone.
fn expected_score_parts(uma: &Uma, cons: &GameConstants) -> ScoreParts {
    let mut five_status = [0i32; 5];
    for i in 0..5 {
        let table = &cons.five_status_final_score;
        let status = uma.five_status[i].min(uma.five_status_limit[i]).max(0) as usize;
        five_status[i] = table[status.min(table.len() - 1)];
    }
    let total = (uma.skill_pt as f32 + uma.total_hints as f32 * 6.5).floor() as i32;
    ScoreParts {
        skill: uma.skill_score,
        pt: (total as f32 * 2.0) as i32,
        five_status,
    }
}

#[test]
fn parts_add_up_to_the_score() {
    let cons = constants();
    let mut cases: Vec<Uma> = vec![Uma::default()];
    let mut uma = Uma::default();
    uma.five_status = [5000, 4000, 3000, 2000, 1000];
    uma.five_status_limit = [100, 80, 60, 40, 20];
    uma.skill_score = 510;
    cases.push(uma);
    let mut uma = Uma::default();
    uma.five_status = [-10, -1, 0, 50, 100];
    uma.five_status_limit = [1200; 5];
    cases.push(uma);
    let mut uma = Uma::default();
    uma.skill_pt = 1;
    uma.total_hints = 1;
    assert_eq!(uma.total_pt(&cons), 7);
    cases.push(uma);
    let mut uma = Uma::default();
    uma.skill_pt = 2;
    uma.total_hints = 3;
    assert_eq!(uma.total_pt(&cons), 21);
    cases.push(uma);
    for uma in &cases {
        let parts = uma.score_parts(&cons);
        assert_eq!(parts, expected_score_parts(uma, &cons));
        assert_eq!(parts.total(), uma.calc_score(&cons));
    }
    assert_eq!(cases[1].calc_score(&cons), 510 + 10000 + 6400 + 3600 + 1600 + 400);
    // (510 + 0) * 1.5 and the status values, at 0.37
    assert_eq!(cases[1].calc_score_with_pt_favor(&cons), (765 + 22000) * 37 / 100);
}

#[test]
fn scores_follow_single_and_double_precision() {
    let mut cons = constants();
    let rates: [f32; 9] = [6.5, 2.4, 0.1, 1.7, 0.0, -2.3, 1.0e-9, 3.0e9, 16_777_217.0];
    let numbers: [i32; 14] = [
        0, 1, -1, 3, 7, 21, -25, 99, 12_345, 16_777_217, 33_554_435, -99_999_999, i32::MAX, i32::MIN,
    ];
    for hint in rates {
        for score in rates {
            cons.hint_pt_rate = single(hint);
            cons.pt_score_rate = single(score);
            for pt in numbers {
                for hints in numbers {
                    let mut uma = Uma::default();
                    uma.skill_pt = pt;
                    uma.total_hints = hints;
                    let total = (pt as f32 + hints as f32 * hint).floor() as i32;
                    assert_eq!(uma.total_pt(&cons), total);
                    let parts = uma.score_parts(&cons);
                    assert_eq!(parts.pt, (total as f32 * score) as i32);
                }
            }
        }
    }
    let mut seed: u32 = 1;
    for _ in 0..20_000 {
        seed = seed.wrapping_mul(1_664_525).wrapping_add(1_013_904_223);
        let x = seed as i32 / 50;
        assert_eq!(scale_score(x), (x as f64 * 0.37) as i32);
        assert_eq!(round_to(seed as i32 as i128, SINGLE), seed as i32 as f32 as i128);
        let wide = seed as i128 * 0x1234_5678_9abc;
        assert_eq!(round_to(wide, DOUBLE), wide as f64 as i128);
        let favor = 1.0 + (seed % 1000) as f32 / 1000.0;
        cons.pt_score_rate = single(2.4);
        cons.pt_favor_rate = single(favor);
        let mut uma = Uma::default();
        uma.skill_pt = (seed >> 12) as i32;
        uma.skill_score = (seed >> 20) as i32;
        let skills = uma.skill_score + (uma.skill_pt as f32 * 2.4f32) as i32;
        let weighted = (skills as f32 * favor) as i32;
        assert_eq!(uma.calc_score_with_pt_favor(&cons), (weighted as f64 * 0.37) as i32);
    }
}

#[test]
fn numbers_of_single_precision_are_read_from_their_bits() {
    assert_eq!(single(6.5), Single { significand: 13 << 20, places: 21 });
    assert_eq!(single(-0.5), Single { significand: -(1 << 23), places: 24 });
    assert_eq!(single(-0.0), Single { significand: 0, places: 0 });
    assert_eq!(single(16_777_216.0 * 4.0), Single { significand: 1 << 26, places: 0 });
    assert_eq!(Single::from_bits(f32::INFINITY.to_bits()), None);
    assert_eq!(Single::from_bits(f32::NAN.to_bits()), None);
    assert_eq!(Single::from_bits(f32::MAX.to_bits()), None);
    assert_eq!(Single::from_bits(f32::MIN_POSITIVE.to_bits()), None);
}

#[test]
fn status_values_beyond_their_cap_or_below_zero_do_not_count() {
    let cons = constants();
    let mut a = Uma::default();
    a.five_status = [500, 40, -3, 0, 10];
    a.five_status_limit = [100, 40, 60, 60, -5];
    let mut b = a;
    b.five_status = [100, 9000, 0, -70, -1];
    assert_eq!(a.score_parts(&cons), b.score_parts(&cons));
    assert_eq!(a.calc_score(&cons), 10_000 + 1_600);
}

#[test]
fn won_races_are_listed_by_turn() {
    let mut uma = Uma::default();
    uma.win_races = 0b110000_000000_1;
    assert_eq!(uma.list_races(), vec![11, 22, 23]);
    uma.set_race(40);
    assert_eq!(uma.list_races(), vec![11, 22, 23, 40]);
    uma.set_race(40);
    uma.set_race(10);
    uma.set_race(73);
    assert_eq!(uma.list_races(), vec![11, 22, 23, 40]);
}

#[test]
fn only_the_best_races_are_masked() {
    let mut grades = vec![3; 60];
    for turn in [30, 44, 47, 48] {
        grades[turn] = 1;
    }
    let cons = GameConstants {
        race_grades: grades,
        ..Default::default()
    };
    let mut free_race = FreeRaceData {
        start_turn: 24,
        end_turn: 47,
        count: 1,
        grade: Some(1),
        mask: 0,
    };
    free_race.update_turn_mask(&cons);
    assert_eq!(free_race.mask, 1 << 19 | 1 << 33 | 1 << 36);
    free_race.grade = None;
    free_race.update_turn_mask(&cons);
    assert_eq!(free_race.mask, ((1u64 << 24) - 1) << 13);

    let mut data = UmaData {
        free_races: vec![free_race],
        races: vec![11, 33],
        name: "[title]Name".to_string(),
        ..Default::default()
    };
    data.update_masks(&cons);
    assert_eq!(data.free_races[0].mask, ((1u64 << 24) - 1) << 13);
    assert_eq!(data.zip_races(), 1 | 1 << 22);
    assert_eq!(data.short_name(), "Name");
    let mut uma = Uma::new(&data, [1200; 5]);
    assert!(uma.is_race_turn(33) && !uma.is_race_turn(34));
    assert!(!uma.all_free_races_done(&data));
    assert_eq!(uma.count_free_race(&data.free_races[0]), 0);
    uma.set_race(33);
    assert_eq!(uma.count_free_race(&data.free_races[0]), 1);
    assert!(uma.all_free_races_done(&data));
    assert!(uma.find_free_race(&data, 24).is_some());
    assert!(uma.find_free_race(&data, 48).is_none());
    assert!(uma.find_free_race(&data, -1).is_none());
}

#[test]
fn a_fresh_character_has_its_first_values() {
    let data = UmaData {
        game_id: 101901,
        five_status_initial: [90, 80, 70, 60, 50],
        five_status_bonus: [20, 0, 10, 0, 0],
        ..Default::default()
    };
    let uma = Uma::new(&data, [1200; 5]);
    assert_eq!((uma.vital, uma.max_vital, uma.motivation), (100, 100, 3));
    assert_eq!(uma.five_status, [90, 80, 70, 60, 50]);
    assert_eq!((uma.skill_score, uma.total_hints, uma.skill_pt), (510, 21, 0));
    assert_eq!(uma.chara_id(), 1019);
}

#[test]
fn values_are_kept_in_range() {
    let mut uma = Uma::default();
    uma.five_status_limit = [1200; 5];
    uma.five_status = [1195, 0, 0, 0, 0];
    uma.max_vital = 100;
    uma.vital = 95;
    uma.motivation = 5;
    uma.add_value(&ActionValue {
        status_pt: [10, -3, 0, 0, 0, 7],
        vital: 30,
        max_vital: 4,
        motivation: 2,
        hint_level: 1,
        friendship: 9,
    });
    assert_eq!(uma.five_status, [1200, -3, 0, 0, 0]);
    assert_eq!((uma.vital, uma.max_vital, uma.motivation), (104, 104, 5));
    assert_eq!((uma.skill_pt, uma.total_hints), (7, 1));
    uma.add_value(&ActionValue {
        vital: -200,
        motivation: -9,
        ..Default::default()
    });
    assert_eq!((uma.vital, uma.motivation), (0, 1));
}

#[test]
fn conditions_are_gained_before_they_are_lost() {
    let ill = UmaFlags {
        ill: true,
        refresh_mind: 1,
        ..Default::default()
    };
    let lucky = UmaFlags {
        lucky: true,
        ..Default::default()
    };
    let mut uma = Uma::default();
    uma.update_flags(&EventChoice {
        add_flags: Some(ill),
        remove_flags: Some(lucky),
        ..Default::default()
    });
    assert_eq!(uma.flags, ill);
    uma.update_flags(&EventChoice {
        add_flags: Some(lucky),
        remove_flags: Some(ill),
        ..Default::default()
    });
    assert_eq!(uma.flags, lucky);
    // what is gained and lost at once does not hold
    uma.update_flags(&EventChoice {
        add_flags: Some(ill),
        remove_flags: Some(ill),
        ..Default::default()
    });
    assert_eq!(uma.flags, lucky);
}

#[test]
fn conditions_are_listed_in_order() {
    colored::control::set_override(false);
    let flags = UmaFlags {
        qiezhe: true,
        lucky: true,
        ill: true,
        refresh_mind: 3,
        ..Default::default()
    };
    assert_eq!(flags.explain(), "切者 幸运体质 *生病 休息心得(3回合)");
    colored::control::set_override(true);
    assert_eq!(
        flags.explain(),
        "\u{1b}[92m切者 \u{1b}[0m幸运体质 *生病 休息心得(3回合)"
    );
}

#[test]
fn vitality_warns_by_its_colour() {
    colored::control::set_override(true);
    let mut uma = Uma::default();
    uma.max_vital = 100;
    uma.vital = 34;
    assert!(uma.explain("n", "m", "s").contains("\u{1b}[31m34/100\u{1b}[0m"));
    uma.vital = 49;
    assert!(uma.explain("n", "m", "s").contains("\u{1b}[33m49/100\u{1b}[0m"));
    uma.vital = 50;
    uma.flags.qiezhe = true;
    let line = uma.explain("n", "m", "s");
    assert!(line.contains("\u{1b}[92m50/100\u{1b}[0m"));
    // the outer colour starts again after the inner one ends
    assert!(line.contains("\u{1b}[92m\u{1b}[92m切者 \u{1b}[0m\u{1b}[92m\u{1b}[0m"));
    colored::control::set_override(false);
    uma.flags.qiezhe = false;
    assert_eq!(uma.explain("n", "m", "s"), "n 体力 50/100 m  sPT0 Hint0 赛后0");
}

#[test]
fn data_is_found_by_number() {
    let mut data = GameData::default();
    data.uma.insert(
        101901,
        UmaData {
            game_id: 101901,
            ..Default::default()
        },
    );
    data.card = BTreeMap::from([(30242, SupportCardData::default())]);
    data.names.insert(1019, "Name".to_string());
    assert_eq!(data.get_uma(101901).map(|u| u.game_id), Ok(101901));
    assert_eq!(
        data.get_uma(1).map(|u| u.game_id),
        Err(SimError::UnknownUma { uma_id: 1 })
    );
    assert!(data.get_card(30242).is_ok());
    assert_eq!(
        data.get_card(2).map(|c| c.card_id),
        Err(SimError::UnknownCard { card_id: 2 })
    );
    assert_eq!(data.get_chara_name(1019), "Name");
    assert_eq!(data.get_chara_name(1), "未知");
    let mut uma = Uma::default();
    uma.uma_id = 101901;
    assert!(uma.get_data(&data).is_ok());
    uma.uma_id = 3;
    assert_eq!(
        uma.get_data(&data).map(|u| u.game_id),
        Err(SimError::UnknownUma { uma_id: 3 })
    );
}

fn card_data() -> SupportCardData {
    let panel = |youqing: i32| CardValue {
        youqing,
        ganjing: 30,
        xunlian: 10,
        deyilv: 5000,
        initial_jiban: 25,
        bonus: [1, 0, 0, 0, 0, 2],
        ..Default::default()
    };
    SupportCardData {
        card_id: 30242,
        card_name: "[速]ABCDE".to_string(),
        card_type: 0,
        card_value: vec![panel(1000), panel(1500), panel(2000), panel(2500), panel(3000)],
        unique_effect_type: 1,
        unique_effect_param: vec![0, 80, 8, 5, 0, 0],
        ..Default::default()
    }
}

#[test]
fn cards_share_their_tables_and_keep_their_state() {
    let data: &'static SupportCardData = Box::leak(Box::new(card_data()));
    let mut card = SupportCard::new(data, 302424).unwrap();
    let rank0 = SupportCard::new(data, 302420).unwrap();
    assert!(std::ptr::eq(card.data, data) && std::ptr::eq(rank0.data, data));
    assert_eq!(card.card_value().youqing, 3000);
    assert_eq!(rank0.card_value().youqing, 1000);
    assert_eq!(card.effect.youqing.parts, vec![3000]);
    assert!(card.effect_state.is_empty());
    card.effect_state.insert("test".to_string(), 1);
    let mut branch = card.clone();
    branch.effect_state.insert("test".to_string(), 2);
    branch.friendship += 1;
    branch.effect.xunlian += 1;
    assert!(std::ptr::eq(branch.data, data));
    assert_eq!(card.effect_state.get("test"), Some(&1));
    assert_eq!(branch.effect_state.get("test"), Some(&2));
    assert_eq!((card.friendship, card.effect.xunlian), (25, 10));
    assert_eq!(card.card_id, 30242);
    assert_eq!(
        SupportCard::new(data, 302425).err(),
        Some(SimError::RankOutOfRange { idrank: 302425 })
    );
}

#[test]
fn unique_effects_wait_for_their_condition() {
    let data: &'static SupportCardData = Box::leak(Box::new(card_data()));
    let mut card = SupportCard::new(data, 302424).unwrap();
    let deck = vec![card.clone()];
    card.friendship = 79;
    assert_eq!(card.calc_training_effect(&deck, 0).xunlian, 10);
    card.friendship = 80;
    assert_eq!(card.calc_training_effect(&deck, 0).xunlian, 15);

    let mut shining = card_data();
    shining.unique_effect_type = 13;
    shining.unique_effect_param = vec![0, 1, 20];
    let shining: &'static SupportCardData = Box::leak(Box::new(shining));
    let card = SupportCard::new(shining, 302424).unwrap();
    assert_eq!(card.calc_training_effect(&deck, 0).youqing.parts, vec![3000]);
    assert_eq!(card.calc_training_effect(&deck, 1).youqing.parts, vec![3000, 2000]);

    let mut master = card_data();
    master.unique_effect_type = 20;
    master.unique_effect_param = vec![0, 0, 80];
    let master: &'static SupportCardData = Box::leak(Box::new(master));
    let mut card = SupportCard::new(master, 302424).unwrap();
    card.friendship = 80;
    let mut deck = vec![card.clone(), card.clone(), card.clone()];
    deck[1].card_type = 6;
    deck[2].card_type = 4;
    // one for each card of a kind
    assert_eq!(card.calc_training_effect(&deck, 0).bonus, [2, 0, 0, 0, 1, 3]);
    deck.push(deck[0].clone());
    assert_eq!(card.calc_training_effect(&deck, 0).bonus, [3, 0, 0, 0, 1, 3]);
    // a third card of a kind adds nothing
    deck.push(deck[0].clone());
    assert_eq!(card.calc_training_effect(&deck, 0).bonus, [3, 0, 0, 0, 1, 3]);
}

#[test]
fn effect_lines_change_one_number_each() {
    let mut e = CardTrainingEffect::none();
    for (id, value) in [(1, 10), (2, 3), (3, 1), (7, 2), (8, 5), (15, 6), (19, 7), (27, 8)] {
        e.add_effect_line(id, value);
    }
    for (id, value) in [(28, 9), (30, 4), (31, 5), (33, 1), (41, 0), (99, 50)] {
        e.add_effect_line(id, value);
    }
    assert_eq!(e.youqing.parts, vec![1000]);
    assert_eq!((e.ganjing, e.xunlian, e.saihou), (3, 5, 6));
    assert_eq!(e.bonus, [2, 1, 1, 1, 3, 4]);
    assert_eq!(e.deyilv.parts, vec![700]);
    assert_eq!(e.fail_rate_drop.parts, vec![800]);
    assert_eq!(e.vital_cost_drop.parts, vec![900]);
    assert_eq!((e.wiz_vital_bonus, e.hint_count_bonus), (5, 1));
}

#[test]
fn two_cards_add_up_but_for_speciality_and_hints() {
    let mut a = CardTrainingEffect::none();
    a.add_effect_line(1, 10);
    a.add_effect_line(8, 5);
    a.add_effect_line(19, 30);
    a.add_effect_line(33, 1);
    let mut b = CardTrainingEffect::none();
    b.add_effect_line(1, 20);
    b.add_effect_line(8, 7);
    b.add_effect_line(19, 40);
    b.add_effect_line(33, 2);
    let c = a.add(&b);
    assert_eq!(c.youqing.parts, vec![1000, 2000]);
    assert_eq!(c.xunlian, 12);
    assert_eq!(c.deyilv.parts, vec![3000]);
    assert_eq!(c.hint_count_bonus, 1);
    assert_eq!(b.add(&a).xunlian, 12);
    let s: Stack = c.youqing.copy();
    assert_eq!(s.parts, c.youqing.parts);
}

#[test]
fn a_card_is_described_by_its_contribution() {
    let data: &'static SupportCardData = Box::leak(Box::new(card_data()));
    let mut card = SupportCard::new(data, 302424).unwrap();
    assert_eq!(card.short_name(), "[速]AB◆ 4");
    let texts = EffectTexts {
        youqing: Some("30.0".to_string()),
        deyilv: Some("50.0".to_string()),
        fail_rate_drop: None,
        vital_cost_drop: None,
        bonus: "速+1 PT+2".to_string(),
    };
    assert_eq!(
        card.explain(&texts, "{}"),
        "[速]AB◆ 4 绊25 友情30.0 干劲30 训练10 得意50.0 副属速+1 PT+2 "
    );
    card.is_locked = true;
    card.effect = CardTrainingEffect::none();
    let none = EffectTexts::default();
    card.effect_state.insert("n".to_string(), 1);
    let state = format!("{:?}", card.effect_state);
    assert_eq!(card.explain(&none, &state), "[速]AB◆ 4 绊25  {\"n\": 1} [锁定]");
    let drops = EffectTexts {
        fail_rate_drop: Some("5.0".to_string()),
        vital_cost_drop: Some("6.0".to_string()),
        ..Default::default()
    };
    assert_eq!(card.effect.explain(&drops), "失败-5.0% 耗体-6.0% ");
}

#[test]
fn outcomes_have_numbers_and_labels() {
    for (n, label) in [(0, ""), (1, "[成功]"), (2, "[大成功]"), (3, "[失败]"), (4, "[大失败]")] {
        let r = ChoiceResult::from_number(n);
        assert_eq!(r.to_number(), n);
        assert_eq!(r.text(), label);
    }
    assert_eq!(ChoiceResult::from_number(9), ChoiceResult::Normal);
    let value = ActionValue {
        vital: 5,
        hint_level: 2,
        ..Default::default()
    };
    let mut c = EventChoice::from_action_value(&value, ChoiceResult::Success);
    assert_eq!((c.result, c.prob), (1, 100));
    assert_eq!(c.explain("S"), "[成功] S 体力5 Hint+2");
    c.prob = 30;
    c.add_flags = Some(UmaFlags {
        ill: true,
        ..Default::default()
    });
    assert_eq!(c.explain("S"), "[成功] S 体力5 Hint+2 +*生病  (30%)");
}

#[test]
fn events_are_described_by_their_options() {
    let event = EventData {
        id: 7,
        name: "E".to_string(),
        player_select: true,
        choices: vec![vec![], vec![]],
        ..Default::default()
    };
    assert_eq!(
        event.explain(&vec!["a".to_string(), "b".to_string()]),
        "[7] E [选择]-->  \n  选项1: a\n  选项2: b"
    );
    let list = vec![NamedEvent {
        key: "k".to_string(),
        event,
    }];
    assert_eq!(find_named(&list, "k").map(|e| e.id), Some(7));
    assert!(find_named(&list, "x").is_none());
}

#[test]
fn status_values_are_mapped_one_by_one() {
    let mut event = EventData::from_action_value(
        9,
        "E",
        &ActionValue {
            status_pt: [1, 2, 3, 4, 5, 6],
            vital: 7,
            ..Default::default()
        },
    );
    event.map_status(&|x: i32| -> i32 { x * 2 });
    assert_eq!(event.default_choice().value.status_pt, [2, 4, 6, 8, 10, 12]);
    assert_eq!(event.default_choice().value.vital, 7);
}

#[test]
fn numbers_and_words_become_text() {
    assert_eq!(decimal(0), "0");
    assert_eq!(decimal(-2147483648), "-2147483648");
    let mut s = String::new();
    append_int(&mut s, i64::MIN);
    assert_eq!(s, "-9223372036854775808");
    assert_eq!(join(&vec!["a".to_string(), "b".to_string()], ", "), "a, b");
    assert_eq!(join(&vec![], ", "), "");
    assert_eq!(tail_after("[a]b]c", ']'), "c");
    assert_eq!(tail_after("abc", ']'), "abc");
    assert_eq!(head_of("未知数", 2), "未知");
    assert_eq!(head_of("未", 2), "未");
}

#[test]
fn quotients_round_towards_zero() {
    assert_eq!(div_trunc_clip(7, 2), 3);
    assert_eq!(div_trunc_clip(-7, 2), -3);
    assert_eq!(div_trunc_clip(1 << 40, 1), i32::MAX);
    assert_eq!(div_trunc_clip(-(1 << 40), 1), i32::MIN);
}

#[test]
fn bits_are_set_one_at_a_time() {
    assert_eq!(with_bit(0, 63), 1 << 63);
    assert!(has_bit(1 << 63, 63) && !has_bit(1 << 63, 62));
    assert_eq!(with_bit(5, 0), 5);
}

#[test]
fn hints_give_attributes_or_skills() {
    let cons = GameConstants {
        train_names: vec!["速度".to_string(); 5],
        hint_event_value: [[6, 0, 2, 0, 0, 0]; 5],
        ..Default::default()
    };
    let e = EventData::hint_attr_event(&cons, 1, 4).unwrap();
    assert_eq!((e.id, e.person_index), (101, Some(4)));
    assert_eq!(e.name, "Hint - 速度属性");
    assert_eq!(e.default_choice().value.status_pt, [6, 0, 2, 0, 0, 0]);
    assert_eq!(e.default_choice().value.friendship, 5);
    assert!(EventData::hint_attr_event(&cons, 5, 4).is_err());
    let e = EventData::hint_skill_event(3, 2);
    assert_eq!(e.name, "Hint - 技能");
    assert_eq!(e.default_choice().value.hint_level, 3);
    assert_eq!(e.default_choice().value.friendship, 5);
}

#[test]
fn an_extra_training_gives_five_points() {
    let template = EventData::from_action_value(7, "extra", &ActionValue::default());
    let e = EventData::extra_training_event(&template, 3);
    assert_eq!(e.default_choice().value.status_pt, [0, 0, 0, 5, 0, 0]);
    assert_eq!(e.id, 7);
}

#[test]
fn the_scenario_may_have_caps_of_its_own() {
    let cons = GameConstants {
        five_status_limit_base: [1200; 5],
        ..Default::default()
    };
    let mut data = RamenScenarioData::default();
    assert_eq!(data.status_limit_base(&cons), [1200; 5]);
    data.five_status_limit_base = Some([1500, 1400, 1300, 1200, 1100]);
    assert_eq!(data.status_limit_base(&cons), [1500, 1400, 1300, 1200, 1100]);
}

#[test]
fn friends_are_told_from_others() {
    let mut p = BasePerson::yayoi();
    assert!(p.is_friend() && !p.is_scenario_card());
    p.person_type = PersonType::ScenarioCard;
    assert!(p.is_scenario_card());
    p.person_type = PersonType::Card;
    p.train_type = 2;
    assert!(!p.is_friend());
    p.set_hint(true);
    assert!(p.hint());
}

#[test]
fn what_was_kept_of_a_card_does_not_matter() {
    let data: &'static SupportCardData = Box::leak(Box::new(card_data()));
    let mut card = SupportCard::new(data, 302424).unwrap();
    card.friendship = 80;
    let deck = vec![card.clone()];
    let before = card.calc_training_effect(&deck, 1);
    card.effect.xunlian = 99;
    card.is_locked = true;
    let changed = vec![card.clone()];
    let after = card.calc_training_effect(&changed, 1);
    assert_eq!((before.xunlian, before.bonus), (after.xunlian, after.bonus));
    assert_eq!(before.youqing.parts, after.youqing.parts);
}
