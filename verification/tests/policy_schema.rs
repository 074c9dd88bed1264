use umasim::game::ramen::action::{Operation, RamenAction, TrainingType};
use umasim::game::ramen::policy_schema::{
    eat_index, region_index, slots_of, super_index, train_index, triple_id, triple_of, PolicySlots,
    EAT_BASE, EAT_NONE, POLICY_DIM, REGION_NUM, REGION_SELECT_BASE, SUPER_BASE, SUPER_NUM,
    TRAIN_BASE, TRAIN_OP_NUM, TRIPLES, TRIPLE_NUM,
};
use umasim::game::ramen::RamenStage;

#[test]
fn test_layout_contiguous() {
    let segs = [
        ("nothing", EAT_NONE, 1),
        ("eat", EAT_BASE, REGION_NUM * TRIPLE_NUM),
        ("operations", TRAIN_BASE, TRAIN_OP_NUM),
        ("super ramen", SUPER_BASE, SUPER_NUM),
        ("regions", REGION_SELECT_BASE, REGION_NUM),
    ];
    let mut cur = 0usize;
    for (name, base, width) in segs {
        assert_eq!(base, cur, "{name} follows the segment before it");
        cur = base + width;
    }
    assert_eq!(cur, POLICY_DIM);
    assert_eq!(POLICY_DIM, 234);
}

#[test]
fn test_triples_are_exactly_sum_le_2() {
    let mut want: Vec<[i32; 3]> = Vec::new();
    for a in 0..=2 {
        for b in 0..=2 - a {
            for c in 0..=2 - a - b {
                want.push([a, b, c]);
            }
        }
    }
    assert_eq!(want.len(), TRIPLE_NUM);
    assert_eq!(want.as_slice(), TRIPLES.as_slice());
}

#[test]
fn test_triple_roundtrip() {
    for (i, t) in TRIPLES.iter().enumerate() {
        assert_eq!(triple_id(*t), Ok(i));
        assert_eq!(triple_of(i), Ok(*t));
    }
    assert!(triple_id([1, 1, 1]).is_err());
    assert!(triple_id([-1, 0, 0]).is_err());
    assert!(triple_of(TRIPLE_NUM).is_err());
}

#[test]
fn test_eat_index_unique_and_in_range() {
    let mut seen = vec![false; POLICY_DIM];
    let none = eat_index(None, None).unwrap();
    seen[none] = true;
    assert_eq!(none, EAT_NONE);
    let mut dup = 0usize;
    for rid in 0..REGION_NUM {
        for t in TRIPLES.iter() {
            let i = eat_index(Some(rid), Some(*t)).unwrap();
            if seen[i] {
                dup += 1;
            }
            seen[i] = true;
            if i < EAT_BASE || i >= TRAIN_BASE {
                dup += 1;
            }
        }
    }
    assert_eq!(dup, 0);
    assert!(eat_index(Some(REGION_NUM), Some([0, 0, 0])).is_err());
    assert!(eat_index(None, Some([1, 0, 0])).is_err());
    assert_eq!(eat_index(None, Some([0, 0, 0])), Ok(EAT_NONE));
}

#[test]
fn test_train_index_covers_ten_ops() {
    let ops = [
        Operation::Train(TrainingType::Speed),
        Operation::Train(TrainingType::Stamina),
        Operation::Train(TrainingType::Power),
        Operation::Train(TrainingType::Guts),
        Operation::Train(TrainingType::Wisdom),
        Operation::Race,
        Operation::Rest,
        Operation::NormalOuting,
        Operation::FriendOuting,
        Operation::Clinic,
    ];
    let mut got: Vec<usize> = Vec::new();
    for op in ops.iter() {
        got.push(train_index(op).unwrap());
    }
    let mut sorted = got.clone();
    sorted.sort_unstable();
    sorted.dedup();
    assert_eq!(sorted.len(), TRAIN_OP_NUM);
    assert!(got.iter().all(|&i| (TRAIN_BASE..SUPER_BASE).contains(&i)));
    assert!(train_index(&Operation::StageOnly).is_err());
    assert!(train_index(&Operation::SuperRamenSelect(0)).is_err());
}

#[test]
fn test_slots_of_dispatch() {
    let eat = RamenAction::special_select(7, [1, 0, 0]);
    let s = slots_of(RamenStage::RamenSelect, &eat).unwrap();
    assert_eq!(s, PolicySlots::One(EAT_BASE + 7 * TRIPLE_NUM + 6));

    let tr = RamenAction::new(Operation::Train(TrainingType::Wisdom));
    assert_eq!(slots_of(RamenStage::Train, &tr), Ok(PolicySlots::One(TRAIN_BASE + 4)));

    let rg = RamenAction::new(Operation::RegionSelect([10, 15, 19]));
    let s = slots_of(RamenStage::RegionSelect, &rg).unwrap();
    assert_eq!(
        s,
        PolicySlots::Three([
            REGION_SELECT_BASE + 10,
            REGION_SELECT_BASE + 15,
            REGION_SELECT_BASE + 19
        ])
    );
    assert_eq!(s.as_slice().len(), 3);

    assert!(slots_of(RamenStage::Train, &rg).is_err());
    assert!(slots_of(RamenStage::RegionSelect, &tr).is_err());
    assert!(slots_of(RamenStage::Begin, &tr).is_err());
    assert!(slots_of(
        RamenStage::RegionSelect,
        &RamenAction::new(Operation::RegionSelect([10, 10, 11]))
    )
    .is_err());
}

#[test]
fn single_slots_follow_their_segments() {
    assert_eq!(super_index(2), Ok(213));
    assert!(super_index(3).is_err());
    assert_eq!(region_index(19), Ok(233));
    assert!(region_index(20).is_err());
    assert_eq!(
        slots_of(RamenStage::SuperRamenSelect, &RamenAction::super_ramen_select(1)),
        Ok(PolicySlots::One(212))
    );
    assert_eq!(
        slots_of(RamenStage::RamenSelect, &RamenAction::ramen_select(None)),
        Ok(PolicySlots::One(EAT_NONE))
    );
    assert_eq!(
        slots_of(RamenStage::SpecialSelect, &RamenAction::combined_select(Some(19), [2, 0, 0])),
        Ok(PolicySlots::One(200))
    );
}
