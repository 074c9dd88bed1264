use umasim::error::{SampleFault, SimError};
use umasim::game::ramen::action::{Operation, RamenAction, TrainingType};
use umasim::game::ramen::policy_schema::{PolicySlots, POLICY_DIM};
use umasim::game::ramen::training_sample::{
    export_ramen_sample, stage_code, stage_of_code, OrderedRollouts, RamenCandidate,
    RamenSampleBatch, RamenSampleMeta, RamenTrainingSample, Rollout, ValidMask,
    SAMPLE_FORMAT_VERSION,
};
use umasim::game::ramen::RamenStage;

/// Number of features of the samples in these tests.
const INPUT_DIM: usize = 128;

fn fake_scores(n: usize, seed: u64) -> Vec<f64> {
    let mut s = seed | 1;
    (0..n)
        .map(|_| {
            s = s.wrapping_mul(6364136223846793005).wrapping_add(1442695040888963407);
            50000.0 + (s >> 40) as f64 / 100.0
        })
        .collect()
}

fn rollout(v: f64) -> Option<Rollout> {
    Some(Rollout {
        raw: v.to_bits(),
        kept: (v as f32).to_bits(),
    })
}

fn bits(features: &[f32]) -> Vec<u32> {
    features.iter().map(|f| f.to_bits()).collect()
}

fn ok_cand(slot: usize, n: usize) -> RamenCandidate {
    let r: Vec<Option<Rollout>> = fake_scores(n, slot as u64 + 1).into_iter().map(rollout).collect();
    RamenCandidate::from_rollouts(PolicySlots::One(slot), &r).unwrap()
}

#[test]
fn test_stage_code_roundtrip() {
    let stages = [
        RamenStage::RamenSelect,
        RamenStage::SpecialSelect,
        RamenStage::Train,
        RamenStage::SuperRamenSelect,
        RamenStage::RegionSelect,
    ];
    let mut codes: Vec<u8> = Vec::new();
    for st in stages.iter() {
        let code = stage_code(st).unwrap();
        codes.push(code);
        assert_eq!(stage_of_code(code), Ok(*st));
    }
    codes.sort_unstable();
    codes.dedup();
    assert_eq!(codes.len(), stages.len());
    assert_eq!(stage_code(&RamenStage::Begin), Err(SimError::WrongStage));
    assert_eq!(stage_of_code(5), Err(SimError::Encoding));
}

#[test]
fn test_valid_mask_tail_bits() {
    for len in [1usize, 63, 64, 65, 100, 1024] {
        let mut m = ValidMask::all_valid(len);
        let full = m.count_valid();
        m.set(0, false).unwrap();
        m.set(len - 1, false).unwrap();
        let after = m.count_valid();
        assert_eq!(full, len);
        assert_eq!(after, if len == 1 { 0 } else { len - 2 });
        assert!(!m.is_valid(len - 1) && !m.is_valid(len));
        assert!(m.check().is_ok());
    }
    let mut m = ValidMask::all_valid(8);
    assert!(m.set(8, false).is_err());
}

#[test]
fn test_candidate_stats_match_action_result() {
    let raw = fake_scores(256, 0xC0FFEE);
    let failed = [3usize, 100, 255];
    let rollouts: Vec<Option<Rollout>> = raw
        .iter()
        .enumerate()
        .map(|(i, v)| if failed.contains(&i) { None } else { rollout(*v) })
        .collect();
    let cand = RamenCandidate::from_rollouts(PolicySlots::One(7), &rollouts).unwrap();
    assert_eq!(cand.rollouts(), 256);
    assert_eq!(cand.n as usize, 253);
    assert_eq!(cand.failed(), 3);
    for &i in failed.iter() {
        assert!(!cand.valid.is_valid(i));
        assert_eq!(f32::from_bits(cand.scores[i]), 0.0);
    }
    assert!(cand.valid.is_valid(4));
    let drift = (f32::from_bits(cand.scores[4]) as f64 - raw[4]).abs() / raw[4];
    assert!(drift < 1e-6);
    assert!(cand.check().is_ok());
    assert!(RamenCandidate::from_rollouts(PolicySlots::One(POLICY_DIM), &rollouts).is_err());
    assert!(RamenCandidate::from_rollouts(PolicySlots::One(0), &vec![rollout(f64::NAN)]).is_err());
    assert!(RamenCandidate::from_rollouts(PolicySlots::One(0), &vec![]).is_err());
}

#[test]
fn test_sample_rejects_bad_input() {
    let meta = RamenSampleMeta::new(42, 23, &RamenStage::RegionSelect, 0xABCD).unwrap();
    let feats = vec![0.5f32; INPUT_DIM];

    let good = RamenTrainingSample::new(
        meta,
        bits(&feats),
        vec![ok_cand(1, 16), ok_cand(2, 16)],
        INPUT_DIM,
    )
    .unwrap();
    assert_eq!(good.format_version, SAMPLE_FORMAT_VERSION);
    assert_eq!(good.meta.stage(), Ok(RamenStage::RegionSelect));
    assert_eq!(good.rollouts(), 16);
    let mask = good.legal_mask();
    assert_eq!(mask.len(), POLICY_DIM);
    assert!(mask[1] && mask[2] && !mask[0]);

    assert!(RamenTrainingSample::new(
        meta,
        bits(&vec![0.0; INPUT_DIM - 1]),
        vec![ok_cand(1, 16)],
        INPUT_DIM
    )
    .is_err());
    let mut nan_feats = feats.clone();
    nan_feats[100] = f32::NAN;
    assert_eq!(
        RamenTrainingSample::new(meta, bits(&nan_feats), vec![ok_cand(1, 16)], INPUT_DIM).err(),
        Some(SimError::BadSample(SampleFault::FeatureNotFinite { index: 100 }))
    );
    assert!(RamenTrainingSample::new(meta, bits(&feats), vec![], INPUT_DIM).is_err());
    assert_eq!(
        RamenTrainingSample::new(
            meta,
            bits(&feats),
            vec![ok_cand(1, 16), ok_cand(2, 15)],
            INPUT_DIM
        )
        .err(),
        Some(SimError::BadSample(SampleFault::RolloutCount { index: 1, got: 15, want: 16 }))
    );
    let mut broken = ok_cand(3, 16);
    broken.n += 1;
    assert_eq!(
        RamenTrainingSample::new(meta, bits(&feats), vec![broken], INPUT_DIM).err(),
        Some(SimError::BadSample(SampleFault::ValidCount { counted: 17, want: 16 }))
    );
}

#[test]
fn every_fault_of_a_mask_is_named() {
    let mut m = ValidMask::all_valid(70);
    assert_eq!(
        m.set(70, true),
        Err(SimError::BadSample(SampleFault::MaskIndex { index: 70, len: 70 }))
    );
    m.words[1] = 0xff;
    assert_eq!(m.check(), Err(SimError::BadSample(SampleFault::MaskTail)));
    m.words.pop();
    assert_eq!(
        m.check(),
        Err(SimError::BadSample(SampleFault::MaskWords { got: 1, want: 2 }))
    );
    let empty = ValidMask::all_valid(0);
    assert!(empty.is_empty());
    assert_eq!(empty.len(), 0);
    assert_eq!(empty.count_valid(), 0);
    assert!(empty.check().is_ok());
}

#[test]
fn a_bit_that_is_set_again_is_back() {
    let mut m = ValidMask::all_valid(130);
    m.set(64, false).unwrap();
    assert!(!m.is_valid(64));
    assert!(m.is_valid(63) && m.is_valid(65));
    m.set(64, true).unwrap();
    assert!(m.is_valid(64));
    assert_eq!(m.count_valid(), 130);
}

#[test]
fn every_fault_of_a_candidate_is_named() {
    let one = vec![rollout(1.0)];
    assert_eq!(
        RamenCandidate::from_rollouts(PolicySlots::Three([1, 300, 400]), &one).err(),
        Some(SimError::BadSample(SampleFault::SlotOutOfRange { slot: 300 }))
    );
    assert_eq!(
        RamenCandidate::from_rollouts(PolicySlots::One(1), &vec![]).err(),
        Some(SimError::BadSample(SampleFault::NoRollouts))
    );
    assert_eq!(
        RamenCandidate::from_rollouts(
            PolicySlots::One(1),
            &vec![rollout(1.0), None, rollout(f64::INFINITY)]
        )
        .err(),
        Some(SimError::BadSample(SampleFault::ScoreNotFinite { index: 2 }))
    );
    let mut c = ok_cand(5, 8);
    c.scores.pop();
    assert_eq!(
        c.check(),
        Err(SimError::BadSample(SampleFault::ScoreCount { got: 7, want: 8 }))
    );
    let mut c = ok_cand(5, 8);
    c.slots = PolicySlots::One(999);
    assert_eq!(
        c.check(),
        Err(SimError::BadSample(SampleFault::SlotOutOfRange { slot: 999 }))
    );
}

#[test]
fn a_stage_without_decision_gives_no_sample() {
    assert_eq!(
        RamenSampleMeta::new(1, 2, &RamenStage::Distribute, 3),
        Err(SimError::WrongStage)
    );
    let bad = RamenSampleMeta { index: 0, turn: 0, stage: 9, root_seed: 0 };
    assert_eq!(bad.stage(), Err(SimError::Encoding));
    assert_eq!(
        RamenTrainingSample::new(bad, vec![0; 4], vec![ok_cand(1, 2)], 4).err(),
        Some(SimError::Encoding)
    );
    assert_eq!(
        RamenTrainingSample::new(bad, vec![0; 3], vec![ok_cand(1, 2)], 4).err(),
        Some(SimError::BadSample(SampleFault::FeatureLen { got: 3, want: 4 }))
    );
    assert_eq!(
        RamenTrainingSample::new(bad, vec![0; 4], vec![], 4).err(),
        Some(SimError::BadSample(SampleFault::NoCandidate))
    );
}

#[test]
fn a_search_becomes_a_sample_with_its_rollouts_in_place() {
    let actions = vec![
        RamenAction::new(Operation::Train(TrainingType::Speed)),
        RamenAction::new(Operation::Rest),
    ];
    let ordered = OrderedRollouts {
        root_seed: 77,
        per_candidate: vec![
            vec![rollout(1.5), None, rollout(2.5)],
            vec![rollout(3.5), rollout(4.5), rollout(5.5)],
        ],
    };
    let sample = export_ramen_sample(
        &actions,
        &Some(ordered.clone()),
        bits(&[1.0, 2.0]),
        30,
        RamenStage::Train,
        9,
        2,
    )
    .unwrap();
    assert_eq!(sample.meta.index, 9);
    assert_eq!(sample.meta.turn, 30);
    assert_eq!(sample.meta.root_seed, 77);
    assert_eq!(sample.meta.stage(), Ok(RamenStage::Train));
    assert_eq!(sample.candidates.len(), 2);
    assert_eq!(sample.candidates[0].slots, PolicySlots::One(201));
    assert_eq!(sample.candidates[1].slots, PolicySlots::One(207));
    assert_eq!(sample.candidates[0].failed(), 1);
    assert_eq!(f32::from_bits(sample.candidates[0].scores[2]), 2.5);
    let mask = sample.legal_mask();
    assert_eq!(mask.iter().filter(|b| **b).count(), 2);
    assert!(mask[201] && mask[207]);

    assert_eq!(
        export_ramen_sample(&actions, &None, vec![], 30, RamenStage::Train, 9, 2).err(),
        Some(SimError::BadSample(SampleFault::NotRecorded))
    );
    let mut short = ordered.clone();
    short.per_candidate.pop();
    assert_eq!(
        export_ramen_sample(&actions, &Some(short), vec![], 30, RamenStage::Train, 9, 2).err(),
        Some(SimError::BadSample(SampleFault::ListLen { got: 1, want: 2 }))
    );
    assert_eq!(
        export_ramen_sample(&actions, &Some(ordered), vec![], 30, RamenStage::RegionSelect, 9, 2)
            .err(),
        Some(SimError::Encoding)
    );
}

#[test]
fn a_batch_keeps_its_samples_in_order() {
    let meta = RamenSampleMeta::new(7, 11, &RamenStage::Train, 0x1234_5678).unwrap();
    let mut batch = RamenSampleBatch::new();
    assert!(batch.is_empty());
    for slot in [201usize, 202] {
        batch.push(
            RamenTrainingSample::new(meta, bits(&[0.25]), vec![ok_cand(slot, 32)], 1).unwrap(),
        );
    }
    assert_eq!(batch.len(), 2);
    assert_eq!(batch.samples[1].candidates[0].slots, PolicySlots::One(202));
    assert!(batch.check_versions().is_ok());
    batch.samples[1].format_version = 2;
    assert_eq!(
        batch.check_versions(),
        Err(SimError::BadSample(SampleFault::Version { index: 1, version: 2 }))
    );
}
