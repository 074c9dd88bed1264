use std::collections::BTreeMap;
use umasim::error::SimError;
use umasim::game::base::person::{BasePerson, PersonType};
use umasim::game::ramen::report::{with_lines, TrainOutlook};
use umasim::game::ramen::{FeelingType, RamenGame};
use umasim::gamedata::data::GameData;
use umasim::gamedata::event::ActionValue;
use umasim::gamedata::ramen::{
    FinalsBaseEffect, FinalsEffect, PtEffect, RamenBasicEffect, RamenScenarioData, RegionEffect,
    RmjEffect,
};
use umasim::game::support_card::SupportCard;
use umasim::gamedata::support_card::{CardValue, SupportCardData};

fn scenario() -> RamenScenarioData {
    let basic = RamenBasicEffect {
        xunlian: 5,
        friendship: 3,
        ..Default::default()
    };
    let mut regions: Vec<RegionEffect> = Vec::new();
    for id in 0..20usize {
        regions.push(RegionEffect {
            id,
            name: format!("region {id}"),
            xunlian: 10,
            at_trains: vec![(id % 5) as i32],
            ..Default::default()
        });
    }
    RamenScenarioData {
        ramen_success_pt: vec![1500, 2500, 3500],
        gain_pt_base: vec![300, 400, 500],
        gain_pt_delta: vec![30, 40, 50],
        ramen_pt_effect: vec![
            PtEffect::default(),
            PtEffect {
                pt_min: 500,
                xunlian: 5,
                deyilv: 60,
                hint: 0,
            },
        ],
        ramen_basic_effect: vec![basic.clone(), basic.clone(), basic],
        ramen_success_effect: vec![RmjEffect::default(); 3],
        ramen_fail_effect: vec![RmjEffect::default(); 3],
        finals_effect: FinalsEffect {
            base: FinalsBaseEffect {
                youqing: 150,
                ..Default::default()
            },
            training_limit_options: vec![vec![0, 1, 3, 4]; 3],
            ..Default::default()
        },
        region_feeling: vec![[2, 2, 1]; 10],
        region_bonus: vec![0, 3, 5, 7, 9, 10],
        ramen_region_effect: regions,
        ..Default::default()
    }
}

fn person(kind: PersonType, friendship: i32, train_type: i32) -> BasePerson {
    BasePerson {
        person_type: kind,
        friendship,
        train_type,
        ..Default::default()
    }
}

fn game() -> RamenGame {
    let mut game = RamenGame::default();
    game.base.turn = 20;
    game.persons = vec![
        person(PersonType::Card, 80, 0),
        person(PersonType::Card, 100, 1),
        person(PersonType::ScenarioCard, 30, 5),
        person(PersonType::Npc, 0, -1),
    ];
    game.base.distribution = vec![vec![0, 3], vec![], vec![1], vec![2], vec![]];
    game.ramen.selected_regions = [0, 1, 2];
    game.ramen.train_feeling_type = Some([
        FeelingType::A,
        FeelingType::B,
        FeelingType::C,
        FeelingType::A,
        FeelingType::B,
    ]);
    game
}

fn outlook() -> TrainOutlook {
    TrainOutlook {
        value: ActionValue {
            status_pt: [10, 0, 5, 0, 0, 2],
            vital: -21,
            friendship: 7,
            ..Default::default()
        },
        status: "S".to_string(),
        fail: Some("12.3".to_string()),
    }
}

fn outlooks() -> [TrainOutlook; 5] {
    [outlook(), outlook(), outlook(), outlook(), outlook()]
}

fn names() -> Vec<String> {
    ["A", "B", "F", "N"].iter().map(|s| s.to_string()).collect()
}

#[test]
fn the_kitchen_is_shown_between_the_openings_and_the_finals() {
    colored::control::set_override(false);
    let data = scenario();
    let mut game = game();
    game.base.turn = 1;
    assert_eq!(game.explain_ramen_info(&data), "");
    game.base.turn = 20;
    game.ramen.feeling_stock = [1, 2, 3];
    game.ramen.feeling_slot = [4, 5, 6];
    game.ramen.special_feeling = 2;
    game.ramen.scenario_pt = 500;
    let line = game.explain_ramen_info(&data);
    assert!(line.starts_with("拉面: 无 | 地区: region 0,region 1,region 2 槽["));
    assert!(line.ends_with("] | 诀窍 A1/4 B2/5 C3/6 | 隐藏诀窍 2 | PT500 [训+5,得意+60]"));
    game.ramen.scenario_pt = 0;
    game.ramen.current_ramen = Some(1);
    let line = game.explain_ramen_info(&data);
    assert!(line.starts_with("拉面: region 1(训+15,羁绊+3) | 地区"));
    assert!(line.ends_with("PT0 [无加成]"));
    colored::control::set_override(true);
    let line = game.explain_ramen_info(&data);
    assert!(line.contains("诀窍 \u{1b}[36mA1/4 B2/5 C3/6\u{1b}[0m"));
    assert!(line.contains("隐藏诀窍 \u{1b}[36m2\u{1b}[0m"));
    game.base.turn = 72;
    game.ramen.super_ramen = Some(0);
    let line = game.explain_ramen_info(&data);
    assert!(line.starts_with("超级拉面回合"));
}

#[test]
fn persons_are_coloured_by_what_they_bring() {
    colored::control::set_override(true);
    let mut p = person(PersonType::Card, 40, 0);
    assert_eq!(RamenGame::format_person_colored(&p, "A", false), "A40");
    assert_eq!(
        RamenGame::format_person_colored(&p, "A", true),
        "\u{1b}[92mA40\u{1b}[0m"
    );
    p.is_hint = true;
    assert_eq!(
        RamenGame::format_person_colored(&p, "A", false),
        "\u{1b}[93m!\u{1b}[0mA40"
    );
    let p = person(PersonType::ScenarioCard, 100, 5);
    assert_eq!(
        RamenGame::format_person_colored(&p, "F", false),
        "\u{1b}[32mF\u{1b}[0m"
    );
}

#[test]
fn the_table_shows_who_is_where() {
    colored::control::set_override(false);
    let data = scenario();
    let game = game();
    assert_eq!(game.distribution_headers(), vec!["速A", "耐B", "力C", "根A", "智B"]);
    let rows = game.distribution_rows(&names(), false);
    assert_eq!(rows.len(), 6);
    assert_eq!(rows[0], vec!["+A80+", "", "B", "F30", ""]);
    assert_eq!(rows[1], vec!["N", "", "", "", ""]);
    let text = game.explain_distribution(&data, &names(), &outlooks());
    let table_lines: Vec<&str> = text.lines().take_while(|l| !l.starts_with("速A ")).collect();
    assert!(table_lines[0].starts_with('+'));
    assert!(table_lines.iter().any(|l| l.contains("+A80+")));
    assert!(table_lines.iter().any(|l| l.contains("速A") && l.contains("智B")));
    let lines: Vec<&str> = text.lines().skip(table_lines.len()).collect();
    assert_eq!(lines.len(), 5);
    // another seat, another table
    let mut moved = game.clone();
    moved.base.distribution[1].push(3);
    assert_ne!(moved.explain_distribution(&data, &names(), &outlooks()), text);
}

#[test]
fn a_training_is_shown_with_its_gauges() {
    let data = scenario();
    let game = game();
    // six, six and three of fifteen, and what the persons at the training add
    let line = game.train_value_line(&data, "L", 1, true, &outlook());
    assert!(line.starts_with("L S 体力-21 失败率: 12.3% 诀窍槽 A+"));
    let quiet = game.train_value_line(&data, "L", 0, false, &outlook());
    assert_eq!(quiet, "L S 体力-21 羁绊+7 失败率: 12.3%");
    let preview = game.train_candidate_preview(&data, "速度", 1, &outlook());
    assert!(preview.starts_with("速度训练 S 体力-21 失败率: 12.3% 诀窍槽 A+"));
    let mut empty = game.clone();
    empty.base.distribution = vec![];
    assert_eq!(
        empty.train_value_line(&data, "L", 1, true, &outlook()),
        "L 训练位未就绪"
    );
    let safe = TrainOutlook {
        fail: None,
        ..outlook()
    };
    assert_eq!(game.train_value_line(&data, "L", 0, false, &safe), "L S 体力-21 羁绊+7");
}

#[test]
fn a_bowl_is_shown_with_what_it_would_give() {
    let data = scenario();
    let game = game();
    let text = game.ramen_candidate_preview(&data, 1).unwrap();
    assert!(text.starts_with("吃面/region 1 ("));
    assert_eq!(
        game.ramen_candidate_preview(&data, 20),
        Err(SimError::RegionOutOfRange { region_id: 20 })
    );
}

#[test]
fn a_turn_is_told_in_two_lines() {
    let game = game();
    assert_eq!(
        game.explain("训练", "[1,1]", "无", "line"),
        "回合: 21-训练 设施等级: [1,1] 友人: 无\nline"
    );
    assert_eq!(
        with_lines("t".to_string(), &vec!["a".to_string(), "b".to_string()]),
        "t\na\nb"
    );
    let view = game.game_view();
    assert_eq!((view.turn, view.max_turn), (21, 77));
    assert_eq!(view.scenario, "");
}

#[test]
fn persons_are_named_by_card_or_character() {
    let mut game = game();
    game.persons[0].card_id = Some(30242);
    game.persons[1].card_id = Some(1);
    game.persons[1].chara_id = 1019;
    let mut data = GameData::default();
    data.card = BTreeMap::from([(
        30242,
        SupportCardData {
            card_name: "[速]ABCDE".to_string(),
            ..Default::default()
        },
    )]);
    data.names.insert(1019, "Name".to_string());
    assert_eq!(
        game.person_names(&data),
        vec!["[速]AB", "[???]Na", "[???]未知", "[NPC]"]
    );
    assert_eq!(BasePerson::yayoi().short_name(None, ""), "理事长");
    assert_eq!(BasePerson::reporter().short_name(None, ""), "记者");
}

#[test]
fn the_speciality_rate_is_kept_with_the_card() {
    let table: &'static SupportCardData = Box::leak(Box::new(SupportCardData {
        card_id: 30242,
        card_name: "[速]ABCDE".to_string(),
        card_value: vec![
            CardValue {
                deyilv: 3000,
                xunlian: 4,
                ..Default::default()
            };
            5
        ],
        unique_effect_type: 1,
        unique_effect_param: vec![0, 0, 19, 20, 0, 0],
        ..Default::default()
    }));
    let data = scenario();
    let mut game = game();
    game.base.deck = vec![SupportCard::new(table, 302424).unwrap()];
    game.persons[1].card_id = Some(30242);
    game.ramen.scenario_pt = 500;
    assert!(!game.base.deck[0].is_locked);
    let (own, added) = game.deyilv(&data, 1).unwrap();
    assert_eq!(own.parts, vec![3000, 2000]);
    assert_eq!(added, 60);
    assert!(game.base.deck[0].is_locked);
    assert_eq!(game.base.deck[0].effect.deyilv.parts, vec![3000, 2000]);
    assert_eq!(game.base.deck[0].effect.xunlian, 4);
    assert!(game.deyilv(&data, -1).is_none());
    assert!(game.deyilv(&data, 99).is_none());
    assert!(game.deyilv(&data, 3).is_none());
}
