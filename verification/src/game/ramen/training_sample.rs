use vstd::prelude::*;
use super::action::RamenAction;
use super::policy_schema::{
    law_slots_in_range,
    slot_ints,
    slots_for,
    slots_of,
    PolicySlots,
    POLICY_DIM,
};
use super::RamenStage;
use crate::error::{SampleFault, SimError};
use crate::gamedata::uma::{bit, has_bit, with_bit};

verus! {

/// Version of the samples' format.
pub const SAMPLE_FORMAT_VERSION: u32 = 1;

// ========== Stages ==========

/// The number of a stage in the samples. Stages without a decision have none.
pub open spec fn code_of(stage: RamenStage) -> Option<u8> {
    match stage {
        RamenStage::RamenSelect => Some(0),
        RamenStage::SpecialSelect => Some(1),
        RamenStage::Train => Some(2),
        RamenStage::SuperRamenSelect => Some(3),
        RamenStage::RegionSelect => Some(4),
        _ => None,
    }
}

/// The number of a stage in the samples. Refused for stages without a decision.
pub fn stage_code(stage: &RamenStage) -> (r: Result<u8, SimError>)
    ensures
        match r {
            Ok(c) => code_of(*stage) == Some(c),
            Err(e) => code_of(*stage) is None && e == SimError::WrongStage,
        },
{
    match stage {
        RamenStage::RamenSelect => Ok(0),
        RamenStage::SpecialSelect => Ok(1),
        RamenStage::Train => Ok(2),
        RamenStage::SuperRamenSelect => Ok(3),
        RamenStage::RegionSelect => Ok(4),
        _ => Err(SimError::WrongStage),
    }
}

/// The stage with a number. Refused for a number that no stage has.
pub fn stage_of_code(code: u8) -> (r: Result<RamenStage, SimError>)
    ensures
        match r {
            Ok(s) => code < 5 && code_of(s) == Some(code),
            Err(e) => code >= 5 && e == SimError::Encoding,
        },
{
    match code {
        0 => Ok(RamenStage::RamenSelect),
        1 => Ok(RamenStage::SpecialSelect),
        2 => Ok(RamenStage::Train),
        3 => Ok(RamenStage::SuperRamenSelect),
        4 => Ok(RamenStage::RegionSelect),
        _ => Err(SimError::Encoding),
    }
}

/// Stages with a decision have numbers of their own, so a number brings the stage back.
pub proof fn law_stage_codes_are_distinct(a: RamenStage, b: RamenStage)
    requires
        code_of(a) is Some,
        code_of(a) == code_of(b),
    ensures
        a == b,
        code_of(a)->0 < 5,
{
}

// ========== Which rollouts succeeded ==========

/// For every rollout whether it succeeded, packed into words, lowest bit first.
#[derive(Debug, Clone)]
pub struct ValidMask {
    /// Number of rollouts.
    pub len: usize,
    /// The bits; those beyond the number of rollouts are zero.
    pub words: Vec<u64>,
}

/// The words that so many bits take up.
pub open spec fn words_for(len: int) -> int {
    if len % 64 == 0 {
        len / 64
    } else {
        len / 64 + 1
    }
}

/// Whether the bit at a position of the words is set.
pub open spec fn flat_bit(words: Seq<u64>, i: int) -> bool {
    bit(words[i / 64], (i % 64) as u64)
}

/// How many of the first bits are set.
pub open spec fn set_bits(words: Seq<u64>, n: int) -> int
    decreases n,
{
    if n <= 0 {
        0
    } else {
        set_bits(words, n - 1) + if flat_bit(words, n - 1) {
            1int
        } else {
            0
        }
    }
}

/// How many entries hold.
pub open spec fn count_true(s: Seq<bool>) -> int
    decreases s.len(),
{
    if s.len() == 0 {
        0
    } else {
        count_true(s.drop_last()) + if s.last() {
            1int
        } else {
            0
        }
    }
}

impl ValidMask {
    /// For every rollout whether it succeeded.
    pub open spec fn entries(&self) -> Seq<bool> {
        Seq::new(self.len as nat, |i: int| flat_bit(self.words@, i))
    }

    /// There are as many words as the bits take up.
    pub open spec fn sized(&self) -> bool {
        self.words@.len() == words_for(self.len as int)
    }

    /// There are as many words as the bits take up, and the bits beyond the length are zero.
    pub open spec fn wf(&self) -> bool {
        &&& self.sized()
        &&& self.len % 64 != 0 ==> self.words@.last() >> ((self.len % 64) as u64) == 0
    }

    /// How many bits are set in all words.
    pub open spec fn total(&self) -> int {
        set_bits(self.words@, 64 * self.words@.len() as int)
    }

    /// What is wrong with the mask, if anything is.
    pub open spec fn fault(&self) -> Option<SampleFault> {
        if !self.sized() {
            Some(
                SampleFault::MaskWords {
                    got: self.words@.len() as usize,
                    want: words_for(self.len as int) as usize,
                },
            )
        } else if !self.wf() {
            Some(SampleFault::MaskTail)
        } else {
            None
        }
    }
}

proof fn lemma_all_ones(b: u64)
    requires
        b < 64,
    ensures
        bit(u64::MAX, b),
{
    assert((0xffff_ffff_ffff_ffffu64 >> b) & 1 == 1) by (bit_vector)
        requires
            b < 64,
    ;
}

proof fn lemma_low_ones(w: u64, rem: u64, b: u64)
    requires
        rem < 64,
        w + 1 == 1u64 << rem,
        b < rem,
    ensures
        bit(w, b),
{
    assert((w >> b) & 1 == 1) by (bit_vector)
        requires
            rem < 64,
            w + 1 == 1u64 << rem,
            b < rem,
    ;
}

proof fn lemma_no_high_ones(w: u64, rem: u64)
    requires
        rem < 64,
        w + 1 == 1u64 << rem,
    ensures
        w >> rem == 0,
{
    assert(w >> rem == 0) by (bit_vector)
        requires
            rem < 64,
            w + 1 == 1u64 << rem,
    ;
}

proof fn lemma_tail_zero(w: u64, rem: u64, b: u64)
    requires
        rem <= b < 64,
        w >> rem == 0,
    ensures
        !bit(w, b),
{
    assert((w >> b) & 1 == 0) by (bit_vector)
        requires
            rem <= b < 64,
            w >> rem == 0,
    ;
}

proof fn lemma_clear_bit(w: u64, b: u64, c: u64)
    requires
        b < 64,
        c < 64,
    ensures
        bit(w & !(1u64 << b), c) == (bit(w, c) && b != c),
{
    assert(((w & !(1u64 << b)) >> c) & 1 == 1 <==> ((w >> c) & 1 == 1 && b != c)) by (bit_vector)
        requires
            b < 64,
            c < 64,
    ;
}

proof fn lemma_tail_kept(w: u64, rem: u64, b: u64)
    requires
        b < rem < 64,
        w >> rem == 0,
    ensures
        (w | (1u64 << b)) >> rem == 0,
        (w & !(1u64 << b)) >> rem == 0,
{
    assert((w | (1u64 << b)) >> rem == 0 && (w & !(1u64 << b)) >> rem == 0) by (bit_vector)
        requires
            b < rem < 64,
            w >> rem == 0,
    ;
}

/// Every bit that is set in a well-formed mask stands for a rollout that succeeded: the bits add
/// up to the number of successes.
pub proof fn law_set_bits_are_successes(m: &ValidMask)
    requires
        m.wf(),
    ensures
        m.total() == count_true(m.entries()),
        0 <= m.total() <= m.len,
{
    lemma_tail_adds_nothing(m, 64 * m.words@.len() as int);
    lemma_bits_are_entries(m, m.len as int);
    assert(m.entries().take(m.len as int) =~= m.entries());
}

proof fn lemma_tail_adds_nothing(m: &ValidMask, n: int)
    requires
        m.wf(),
        m.len <= n <= 64 * m.words@.len(),
    ensures
        set_bits(m.words@, n) == set_bits(m.words@, m.len as int),
    decreases n,
{
    if n > m.len {
        lemma_tail_adds_nothing(m, n - 1);
        let i = n - 1;
        assert(i / 64 == m.words@.len() - 1);
        assert(i % 64 >= m.len % 64);
        lemma_tail_zero(m.words@.last(), (m.len % 64) as u64, (i % 64) as u64);
    }
}

proof fn lemma_bits_are_entries(m: &ValidMask, n: int)
    requires
        0 <= n <= m.len,
    ensures
        set_bits(m.words@, n) == count_true(m.entries().take(n)),
        0 <= set_bits(m.words@, n) <= n,
    decreases n,
{
    if n > 0 {
        lemma_bits_are_entries(m, n - 1);
        assert(m.entries().take(n).drop_last() =~= m.entries().take(n - 1));
        assert(m.entries().take(n).last() == flat_bit(m.words@, n - 1));
    } else {
        assert(m.entries().take(0).len() == 0);
    }
}

proof fn lemma_set_bits_grow(words: Seq<u64>, a: int, b: int)
    requires
        a <= b,
    ensures
        set_bits(words, a) <= set_bits(words, b),
    decreases b - a,
{
    if a < b {
        lemma_set_bits_grow(words, a, b - 1);
    }
}

impl ValidMask {
    /// A mask for so many rollouts, all of which succeeded.
    pub fn all_valid(len: usize) -> (m: ValidMask)
        ensures
            m.wf(),
            m.len == len,
            m.entries() == Seq::new(len as nat, |i: int| true),
    {
        let mut words: Vec<u64> = Vec::new();
        let full: usize = len / 64;
        let rem: u64 = (len % 64) as u64;
        let mut i: usize = 0;
        while i < full
            invariant
                i <= full,
                words@.len() == i,
                forall|j: int| 0 <= j < i ==> #[trigger] words@[j] == u64::MAX,
            decreases full - i,
        {
            words.push(u64::MAX);
            i = i + 1;
        }
        if rem != 0 {
            assert((1u64 << rem) >= 1) by (bit_vector)
                requires
                    rem < 64,
            ;
            let last: u64 = (1u64 << rem) - 1;
            proof {
                lemma_no_high_ones(last, rem);
            }
            words.push(last);
        }
        let m: ValidMask = ValidMask { len, words };
        assert forall|k: int| 0 <= k < len implies #[trigger] flat_bit(m.words@, k) by {
            if k / 64 < full {
                lemma_all_ones((k % 64) as u64);
            } else {
                lemma_low_ones(m.words@[k / 64], rem, (k % 64) as u64);
            }
        }
        assert(m.entries() =~= Seq::new(len as nat, |i: int| true));
        m
    }

    /// Records whether a rollout succeeded. Refused for a number that no rollout has.
    pub fn set(&mut self, idx: usize, valid: bool) -> (r: Result<(), SimError>)
        requires
            old(self).sized(),
        ensures
            final(self).len == old(self).len,
            final(self).sized(),
            old(self).wf() ==> final(self).wf(),
            match r {
                Ok(_) => {
                    &&& idx < old(self).len
                    &&& final(self).entries() == old(self).entries().update(idx as int, valid)
                    &&& final(self).words@.len() == old(self).words@.len()
                    &&& forall|k: int|
                        0 <= k < 64 * old(self).words@.len() && k != idx ==> #[trigger] flat_bit(
                            final(self).words@,
                            k,
                        ) == flat_bit(old(self).words@, k)
                },
                Err(e) => idx >= old(self).len && *final(self) == *old(self) && e
                    == SimError::BadSample(
                    SampleFault::MaskIndex { index: idx, len: old(self).len },
                ),
            },
    {
        if idx >= self.len {
            return Err(SimError::BadSample(SampleFault::MaskIndex { index: idx, len: self.len }));
        }
        let w: usize = idx / 64;
        let b: u64 = (idx % 64) as u64;
        let before: u64 = self.words[w];
        let after: u64 = if valid {
            with_bit(before, b)
        } else {
            before & !(1u64 << b)
        };
        self.words[w] = after;
        proof {
            assert forall|c: u64| c < 64 && c != b implies bit(after, c) == bit(before, c) by {
                lemma_clear_bit(before, b, c);
            }
            lemma_clear_bit(before, b, b);
            assert(bit(after, b) == valid);
            assert forall|k: int| 0 <= k < 64 * self.words@.len() && k != idx implies #[trigger] flat_bit(
                self.words@,
                k,
            ) == flat_bit(old(self).words@, k) by {
                if k / 64 == w {
                    assert(k % 64 != b);
                }
            }
            assert forall|k: int| 0 <= k < self.len implies #[trigger] self.entries()[k] == old(self).entries().update(
                idx as int,
                valid,
            )[k] by {
                if k / 64 == w {
                    assert(k % 64 == b <==> k == idx);
                }
            }
            assert(self.entries() =~= old(self).entries().update(idx as int, valid));
            if old(self).wf() && self.len % 64 != 0 && w == self.words@.len() - 1 {
                lemma_tail_kept(before, (self.len % 64) as u64, b);
                assert(after >> ((self.len % 64) as u64) == 0);
            }
        }
        Ok(())
    }

    /// Whether a rollout succeeded; a number that no rollout has did not.
    pub fn is_valid(&self, idx: usize) -> (b: bool)
        requires
            self.sized(),
        ensures
            b == (idx < self.len && self.entries()[idx as int]),
    {
        if idx >= self.len {
            return false;
        }
        has_bit(self.words[idx / 64], (idx % 64) as u64)
    }

    /// Number of rollouts.
    pub fn len(&self) -> (n: usize)
        ensures
            n == self.len,
            n == self.entries().len(),
    {
        self.len
    }

    /// Whether there is no rollout.
    pub fn is_empty(&self) -> (b: bool)
        ensures
            b == (self.entries().len() == 0),
    {
        self.len == 0
    }

    /// How many bits are set.
    pub fn count_valid(&self) -> (n: usize)
        requires
            self.total() <= usize::MAX,
        ensures
            n == self.total(),
    {
        let mut n: usize = 0;
        let mut w: usize = 0;
        while w < self.words.len()
            invariant
                w <= self.words@.len(),
                self.total() <= usize::MAX,
                n == set_bits(self.words@, 64 * w),
            decreases self.words@.len() - w,
        {
            let word: u64 = self.words[w];
            let mut b: u64 = 0;
            while b < 64
                invariant
                    b <= 64,
                    w < self.words@.len(),
                    self.total() <= usize::MAX,
                    word == self.words@[w as int],
                    n == set_bits(self.words@, 64 * w + b),
                decreases 64 - b,
            {
                assert((64 * w + b) / 64 == w && (64 * w + b) % 64 == b);
                assert(flat_bit(self.words@, 64 * w + b) == bit(word, b));
                proof {
                    lemma_set_bits_grow(
                        self.words@,
                        64 * w + b + 1,
                        64 * self.words@.len() as int,
                    );
                }
                if has_bit(word, b) {
                    n = n + 1;
                }
                b = b + 1;
            }
            w = w + 1;
        }
        n
    }

    /// Whether the mask is well-formed.
    pub fn check(&self) -> (r: Result<(), SimError>)
        ensures
            match r {
                Ok(_) => self.fault() is None,
                Err(e) => self.fault() matches Some(f) && e == SimError::BadSample(f),
            },
    {
        let rem: usize = self.len % 64;
        let want: usize = if rem == 0 {
            self.len / 64
        } else {
            self.len / 64 + 1
        };
        if self.words.len() != want {
            return Err(
                SimError::BadSample(SampleFault::MaskWords { got: self.words.len(), want }),
            );
        }
        if rem != 0 {
            let last: u64 = self.words[self.words.len() - 1];
            if last >> (rem as u64) != 0 {
                return Err(SimError::BadSample(SampleFault::MaskTail));
            }
        }
        Ok(())
    }
}

// ========== Candidates ==========

/// The score of a rollout: the bits of the double that came out of it, and the bits of the single
/// that is kept of it.
#[derive(Debug, Clone, Copy, PartialEq, Eq, Structural)]
pub struct Rollout {
    pub raw: u64,
    pub kept: u32,
}

/// The bits of a double stand for a finite number: its exponent is not all ones.
pub open spec fn finite_double(bits: u64) -> bool {
    (bits >> 52) & 0x7ff != 0x7ff
}

/// The bits of a single stand for a finite number: its exponent is not all ones.
pub open spec fn finite_single(bits: u32) -> bool {
    (bits >> 23) & 0xff != 0xff
}

/// All rollouts of one answer.
#[derive(Debug, Clone)]
pub struct RamenCandidate {
    /// The slots that the answer takes up.
    pub slots: PolicySlots,
    /// The bits of the scores, by number of the rollout; zero where a rollout failed.
    pub scores: Vec<u32>,
    /// Which rollouts succeeded.
    pub valid: ValidMask,
    /// How many rollouts succeeded.
    pub n: u32,
}

/// The first slot, from a position on, that lies outside the policy head.
pub open spec fn bad_slot(slots: Seq<usize>, from: int) -> Option<usize>
    decreases slots.len() - from,
{
    if from >= slots.len() {
        None
    } else if slots[from] >= POLICY_DIM {
        Some(slots[from])
    } else {
        bad_slot(slots, from + 1)
    }
}

/// The first rollout, from a position on, whose score is not a finite number.
pub open spec fn bad_rollout(rollouts: Seq<Option<Rollout>>, from: int) -> Option<int>
    decreases rollouts.len() - from,
{
    if from >= rollouts.len() {
        None
    } else if rollouts[from] is Some && !finite_double(rollouts[from]->0.raw) {
        Some(from)
    } else {
        bad_rollout(rollouts, from + 1)
    }
}

/// What keeps rollouts from becoming a candidate, if anything does.
pub open spec fn rollouts_fault(slots: PolicySlots, rollouts: Seq<Option<Rollout>>) -> Option<SampleFault> {
    if rollouts.len() == 0 {
        Some(SampleFault::NoRollouts)
    } else if bad_slot(slots.slots(), 0) is Some {
        Some(SampleFault::SlotOutOfRange { slot: bad_slot(slots.slots(), 0)->0 })
    } else if bad_rollout(rollouts, 0) is Some {
        Some(SampleFault::ScoreNotFinite { index: bad_rollout(rollouts, 0)->0 as usize })
    } else {
        None
    }
}

/// The score that is kept of a rollout.
pub open spec fn kept_score(r: Option<Rollout>) -> u32 {
    match r {
        Some(x) => x.kept,
        None => 0,
    }
}

/// A candidate holds these rollouts, each under its own number.
pub open spec fn holds_rollouts(
    c: RamenCandidate,
    slots: PolicySlots,
    rollouts: Seq<Option<Rollout>>,
) -> bool {
    &&& c.slots == slots
    &&& c.scores@ == Seq::new(rollouts.len(), |i: int| kept_score(rollouts[i]))
    &&& c.valid.entries() == Seq::new(rollouts.len(), |i: int| rollouts[i] is Some)
    &&& c.n == count_true(c.valid.entries())
}

/// The first slot that lies outside the policy head.
fn find_bad_slot(slots: &PolicySlots) -> (r: Option<usize>)
    ensures
        r == bad_slot(slots.slots(), 0),
{
    let list: Vec<usize> = slots.as_slice();
    let mut i: usize = 0;
    while i < list.len()
        invariant
            i <= list@.len(),
            list@ == slots.slots(),
            bad_slot(list@, 0) == bad_slot(list@, i as int),
        decreases list@.len() - i,
    {
        if list[i] >= POLICY_DIM {
            return Some(list[i]);
        }
        i = i + 1;
    }
    None
}

/// The first rollout whose score is not a finite number.
fn find_bad_rollout(rollouts: &Vec<Option<Rollout>>) -> (r: Option<usize>)
    ensures
        r matches Some(i) ==> bad_rollout(rollouts@, 0) == Some(i as int),
        r is None ==> bad_rollout(rollouts@, 0) is None,
{
    let mut i: usize = 0;
    while i < rollouts.len()
        invariant
            i <= rollouts@.len(),
            bad_rollout(rollouts@, 0) == bad_rollout(rollouts@, i as int),
        decreases rollouts@.len() - i,
    {
        if let Some(x) = rollouts[i] {
            if (x.raw >> 52) & 0x7ff == 0x7ff {
                return Some(i);
            }
        }
        i = i + 1;
    }
    None
}

impl RamenCandidate {
    /// What is wrong with the candidate, if anything is.
    pub open spec fn fault(&self) -> Option<SampleFault> {
        if self.scores@.len() != self.valid.len {
            Some(
                SampleFault::ScoreCount {
                    got: self.scores@.len() as usize,
                    want: self.valid.len,
                },
            )
        } else if self.valid.fault() is Some {
            self.valid.fault()
        } else if self.n != self.valid.total() {
            Some(SampleFault::ValidCount { counted: self.n, want: self.valid.total() as usize })
        } else if bad_slot(self.slots.slots(), 0) is Some {
            Some(SampleFault::SlotOutOfRange { slot: bad_slot(self.slots.slots(), 0)->0 })
        } else {
            None
        }
    }

    /// Keeps rollouts under their own numbers, so that those of several candidates can be paired.
    /// A rollout that failed keeps its place. Refused where there is no rollout, a slot lies
    /// outside the policy head, or a score is not a finite number.
    pub fn from_rollouts(slots: PolicySlots, rollouts: &Vec<Option<Rollout>>) -> (r: Result<
        RamenCandidate,
        SimError,
    >)
        requires
            rollouts@.len() <= u32::MAX,
        ensures
            match r {
                Ok(c) => rollouts_fault(slots, rollouts@) is None && holds_rollouts(
                    c,
                    slots,
                    rollouts@,
                ) && c.fault() is None,
                Err(e) => rollouts_fault(slots, rollouts@) matches Some(f) && e
                    == SimError::BadSample(f),
            },
    {
        if rollouts.len() == 0 {
            return Err(SimError::BadSample(SampleFault::NoRollouts));
        }
        if let Some(slot) = find_bad_slot(&slots) {
            return Err(SimError::BadSample(SampleFault::SlotOutOfRange { slot }));
        }
        if let Some(index) = find_bad_rollout(rollouts) {
            return Err(SimError::BadSample(SampleFault::ScoreNotFinite { index }));
        }
        let mut scores: Vec<u32> = Vec::new();
        let mut valid: ValidMask = ValidMask::all_valid(rollouts.len());
        let mut n: u32 = 0;
        let mut i: usize = 0;
        while i < rollouts.len()
            invariant
                i <= rollouts@.len() <= u32::MAX,
                valid.wf(),
                valid.len == rollouts@.len(),
                scores@.len() == i,
                n <= i,
                n == count_true(valid.entries().take(i as int)),
                forall|j: int| 0 <= j < i ==> #[trigger] scores@[j] == kept_score(rollouts@[j]),
                forall|j: int| 0 <= j < i ==> #[trigger] valid.entries()[j] == (rollouts@[j] is Some),
                forall|j: int| i <= j < valid.len ==> #[trigger] valid.entries()[j],
            decreases rollouts@.len() - i,
        {
            let ghost before = valid.entries();
            match rollouts[i] {
                Some(x) => {
                    scores.push(x.kept);
                    n = n + 1;
                },
                None => {
                    scores.push(0);
                    let _ = valid.set(i, false);
                },
            }
            proof {
                assert(valid.entries().take(i as int + 1).drop_last() =~= before.take(i as int));
                assert(valid.entries().take(i as int + 1).last() == valid.entries()[i as int]);
            }
            i = i + 1;
        }
        proof {
            law_set_bits_are_successes(&valid);
            assert(valid.entries().take(rollouts@.len() as int) =~= valid.entries());
        }
        let c: RamenCandidate = RamenCandidate { slots, scores, valid, n };
        assert(c.scores@ =~= Seq::new(rollouts@.len(), |i: int| kept_score(rollouts@[i])));
        assert(c.valid.entries() =~= Seq::new(rollouts@.len(), |i: int| rollouts@[i] is Some));
        Ok(c)
    }

    /// Number of rollouts, those that failed included.
    pub fn rollouts(&self) -> (n: usize)
        ensures
            n == self.scores@.len(),
    {
        self.scores.len()
    }

    /// Number of rollouts that failed.
    pub fn failed(&self) -> (n: usize)
        requires
            self.n <= self.scores@.len(),
        ensures
            n == self.scores@.len() - self.n,
    {
        self.scores.len() - self.n as usize
    }

    /// Whether the parts of the candidate agree.
    pub fn check(&self) -> (r: Result<(), SimError>)
        ensures
            match r {
                Ok(_) => self.fault() is None,
                Err(e) => self.fault() matches Some(f) && e == SimError::BadSample(f),
            },
    {
        if self.scores.len() != self.valid.len() {
            return Err(
                SimError::BadSample(
                    SampleFault::ScoreCount { got: self.scores.len(), want: self.valid.len() },
                ),
            );
        }
        match self.valid.check() {
            Ok(_) => {},
            Err(e) => {
                return Err(e);
            },
        }
        proof {
            law_set_bits_are_successes(&self.valid);
        }
        let valid: usize = self.valid.count_valid();
        if self.n as usize != valid {
            return Err(
                SimError::BadSample(SampleFault::ValidCount { counted: self.n, want: valid }),
            );
        }
        if let Some(slot) = find_bad_slot(&self.slots) {
            return Err(SimError::BadSample(SampleFault::SlotOutOfRange { slot }));
        }
        Ok(())
    }
}

// ========== Samples ==========

/// What is known of a sample besides its numbers.
#[derive(Debug, Clone, Copy, PartialEq, Eq, Structural)]
pub struct RamenSampleMeta {
    /// Number of the work item that the position came from.
    pub index: u64,
    /// Turn of the decision.
    pub turn: i32,
    /// Number of the decision's stage.
    pub stage: u8,
    /// Seed of the search.
    pub root_seed: u64,
}

impl RamenSampleMeta {
    /// Notes where a sample comes from. Refused for stages without a decision.
    pub fn new(index: u64, turn: i32, stage: &RamenStage, root_seed: u64) -> (r: Result<
        RamenSampleMeta,
        SimError,
    >)
        ensures
            match r {
                Ok(m) => code_of(*stage) is Some && m == (RamenSampleMeta {
                    index,
                    turn,
                    stage: code_of(*stage)->0,
                    root_seed,
                }),
                Err(e) => code_of(*stage) is None && e == SimError::WrongStage,
            },
    {
        match stage_code(stage) {
            Ok(code) => Ok(RamenSampleMeta { index, turn, stage: code, root_seed }),
            Err(e) => Err(e),
        }
    }

    /// The stage of the decision. Refused for a number that no stage has.
    pub fn stage(&self) -> (r: Result<RamenStage, SimError>)
        ensures
            match r {
                Ok(s) => code_of(s) == Some(self.stage),
                Err(e) => self.stage >= 5 && e == SimError::Encoding,
            },
    {
        stage_of_code(self.stage)
    }
}

/// A sample: the features of a position and the rollouts of every answer.
#[derive(Debug, Clone)]
pub struct RamenTrainingSample {
    /// Version of the format.
    pub format_version: u32,
    /// Where the sample comes from.
    pub meta: RamenSampleMeta,
    /// The bits of the features.
    pub features: Vec<u32>,
    /// The candidates, all with the same number of rollouts.
    pub candidates: Vec<RamenCandidate>,
}

/// The first feature, from a position on, that is not a finite number.
pub open spec fn bad_feature(features: Seq<u32>, from: int) -> Option<int>
    decreases features.len() - from,
{
    if from >= features.len() {
        None
    } else if !finite_single(features[from]) {
        Some(from)
    } else {
        bad_feature(features, from + 1)
    }
}

/// What is wrong with the candidates from a position on, if anything is.
pub open spec fn candidates_fault(candidates: Seq<RamenCandidate>, from: int) -> Option<SampleFault>
    decreases candidates.len() - from,
{
    if from >= candidates.len() {
        None
    } else if candidates[from].fault() is Some {
        candidates[from].fault()
    } else if candidates[from].scores@.len() != candidates[0].scores@.len() {
        Some(
            SampleFault::RolloutCount {
                index: from as usize,
                got: candidates[from].scores@.len() as usize,
                want: candidates[0].scores@.len() as usize,
            },
        )
    } else {
        candidates_fault(candidates, from + 1)
    }
}

/// What keeps numbers from becoming a sample, if anything does.
pub open spec fn sample_fault(
    meta: RamenSampleMeta,
    features: Seq<u32>,
    candidates: Seq<RamenCandidate>,
    input_dim: usize,
) -> Option<SimError> {
    if features.len() != input_dim {
        Some(
            SimError::BadSample(
                SampleFault::FeatureLen { got: features.len() as usize, want: input_dim },
            ),
        )
    } else if bad_feature(features, 0) is Some {
        Some(
            SimError::BadSample(
                SampleFault::FeatureNotFinite { index: bad_feature(features, 0)->0 as usize },
            ),
        )
    } else if candidates.len() == 0 {
        Some(SimError::BadSample(SampleFault::NoCandidate))
    } else if candidates_fault(candidates, 0) is Some {
        Some(SimError::BadSample(candidates_fault(candidates, 0)->0))
    } else if meta.stage >= 5 {
        Some(SimError::Encoding)
    } else {
        None
    }
}

/// A candidate takes up a slot.
pub open spec fn takes_slot(c: RamenCandidate, slot: usize) -> bool {
    c.slots.slots().contains(slot)
}

/// Some candidate takes up a slot.
pub open spec fn slot_taken(candidates: Seq<RamenCandidate>, slot: usize) -> bool {
    exists|i: int| 0 <= i < candidates.len() && takes_slot(#[trigger] candidates[i], slot)
}

/// The first feature that is not a finite number.
fn find_bad_feature(features: &Vec<u32>) -> (r: Option<usize>)
    ensures
        r matches Some(i) ==> bad_feature(features@, 0) == Some(i as int),
        r is None ==> bad_feature(features@, 0) is None,
{
    let mut i: usize = 0;
    while i < features.len()
        invariant
            i <= features@.len(),
            bad_feature(features@, 0) == bad_feature(features@, i as int),
        decreases features@.len() - i,
    {
        if (features[i] >> 23) & 0xff == 0xff {
            return Some(i);
        }
        i = i + 1;
    }
    None
}

/// Whether the candidates are in order and have the same number of rollouts.
fn check_candidates(candidates: &Vec<RamenCandidate>) -> (r: Result<(), SimError>)
    ensures
        match r {
            Ok(_) => candidates_fault(candidates@, 0) is None,
            Err(e) => candidates_fault(candidates@, 0) matches Some(f) && e == SimError::BadSample(f),
        },
{
    let mut i: usize = 0;
    while i < candidates.len()
        invariant
            i <= candidates@.len(),
            candidates_fault(candidates@, 0) == candidates_fault(candidates@, i as int),
        decreases candidates@.len() - i,
    {
        match candidates[i].check() {
            Ok(_) => {},
            Err(e) => {
                return Err(e);
            },
        }
        let got: usize = candidates[i].rollouts();
        let want: usize = candidates[0].rollouts();
        if got != want {
            return Err(
                SimError::BadSample(SampleFault::RolloutCount { index: i, got, want }),
            );
        }
        i = i + 1;
    }
    Ok(())
}

proof fn lemma_slots_in_range(slots: Seq<usize>, from: int, k: int)
    requires
        0 <= from <= k < slots.len(),
        bad_slot(slots, from) is None,
    ensures
        slots[k] < POLICY_DIM,
    decreases slots.len() - from,
{
    if from < k {
        lemma_slots_in_range(slots, from + 1, k);
    }
}

proof fn lemma_candidates_sound(candidates: Seq<RamenCandidate>, from: int, k: int)
    requires
        0 <= from <= k < candidates.len(),
        candidates_fault(candidates, from) is None,
    ensures
        candidates[k].fault() is None,
        candidates[k].scores@.len() == candidates[0].scores@.len(),
    decreases candidates.len() - from,
{
    if from < k {
        lemma_candidates_sound(candidates, from + 1, k);
    }
}

impl RamenTrainingSample {
    /// The sample is as `new` makes it.
    pub open spec fn wf(&self, input_dim: usize) -> bool {
        &&& self.format_version == SAMPLE_FORMAT_VERSION
        &&& sample_fault(self.meta, self.features@, self.candidates@, input_dim) is None
    }

    /// Puts a sample together, given how many features a position has. Refused where anything
    /// would spoil a data set.
    pub fn new(
        meta: RamenSampleMeta,
        features: Vec<u32>,
        candidates: Vec<RamenCandidate>,
        input_dim: usize,
    ) -> (r: Result<RamenTrainingSample, SimError>)
        ensures
            match r {
                Ok(s) => s.wf(input_dim) && s == (RamenTrainingSample {
                    format_version: SAMPLE_FORMAT_VERSION,
                    meta,
                    features,
                    candidates,
                }),
                Err(e) => sample_fault(meta, features@, candidates@, input_dim) == Some(e),
            },
    {
        if features.len() != input_dim {
            return Err(
                SimError::BadSample(
                    SampleFault::FeatureLen { got: features.len(), want: input_dim },
                ),
            );
        }
        if let Some(index) = find_bad_feature(&features) {
            return Err(SimError::BadSample(SampleFault::FeatureNotFinite { index }));
        }
        if candidates.len() == 0 {
            return Err(SimError::BadSample(SampleFault::NoCandidate));
        }
        match check_candidates(&candidates) {
            Ok(_) => {},
            Err(e) => {
                return Err(e);
            },
        }
        match meta.stage() {
            Ok(_) => {},
            Err(e) => {
                return Err(e);
            },
        }
        Ok(
            RamenTrainingSample {
                format_version: SAMPLE_FORMAT_VERSION,
                meta,
                features,
                candidates,
            },
        )
    }

    /// Number of rollouts of every candidate; zero without candidates.
    pub fn rollouts(&self) -> (n: usize)
        ensures
            n == if self.candidates@.len() == 0 {
                0
            } else {
                self.candidates@[0].scores@.len()
            },
    {
        if self.candidates.len() == 0 {
            0
        } else {
            self.candidates[0].rollouts()
        }
    }

    /// The slots of the policy head that some candidate takes up.
    pub fn legal_mask(&self) -> (mask: Vec<bool>)
        requires
            forall|i: int, k: int|
                0 <= i < self.candidates@.len() && 0 <= k < self.candidates@[i].slots.slots().len()
                    ==> #[trigger] self.candidates@[i].slots.slots()[k] < POLICY_DIM,
        ensures
            mask@.len() == POLICY_DIM,
            forall|s: usize|
                s < POLICY_DIM ==> #[trigger] mask@[s as int] == slot_taken(self.candidates@, s),
    {
        let mut mask: Vec<bool> = Vec::new();
        while mask.len() < POLICY_DIM
            invariant
                mask@.len() <= POLICY_DIM,
                forall|s: int| 0 <= s < mask@.len() ==> !#[trigger] mask@[s],
            decreases POLICY_DIM - mask@.len(),
        {
            mask.push(false);
        }
        let ghost cands = self.candidates@;
        let mut i: usize = 0;
        while i < self.candidates.len()
            invariant
                i <= cands.len(),
                cands == self.candidates@,
                mask@.len() == POLICY_DIM,
                forall|c: int, k: int|
                    0 <= c < cands.len() && 0 <= k < cands[c].slots.slots().len()
                        ==> #[trigger] cands[c].slots.slots()[k] < POLICY_DIM,
                forall|s: usize|
                    s < POLICY_DIM ==> #[trigger] mask@[s as int] == slot_taken(
                        cands.take(i as int),
                        s,
                    ),
            decreases cands.len() - i,
        {
            let list: Vec<usize> = self.candidates[i].slots.as_slice();
            let ghost before = mask@;
            let mut k: usize = 0;
            while k < list.len()
                invariant
                    k <= list@.len(),
                    list@ == cands[i as int].slots.slots(),
                    0 <= i < cands.len(),
                    forall|c: int, j: int|
                        0 <= c < cands.len() && 0 <= j < cands[c].slots.slots().len()
                            ==> #[trigger] cands[c].slots.slots()[j] < POLICY_DIM,
                    mask@.len() == POLICY_DIM,
                    before.len() == POLICY_DIM,
                    forall|s: usize|
                        s < POLICY_DIM ==> #[trigger] mask@[s as int] == (before[s as int]
                            || list@.take(k as int).contains(s)),
                decreases list@.len() - k,
            {
                let slot: usize = list[k];
                let ghost pre = mask@;
                assert(cands[i as int].slots.slots()[k as int] < POLICY_DIM);
                mask.set(slot, true);
                proof {
                    let shorter = list@.take(k as int);
                    let longer = list@.take(k as int + 1);
                    assert(longer =~= shorter.push(slot));
                    assert forall|s: usize| s < POLICY_DIM implies #[trigger] mask@[s as int] == (
                    before[s as int] || longer.contains(s)) by {
                        assert(pre[s as int] == (before[s as int] || shorter.contains(s)));
                        if shorter.contains(s) {
                            let j = choose|j: int| 0 <= j < shorter.len() && shorter[j] == s;
                            assert(longer[j] == s);
                        }
                        if s == slot {
                            assert(longer[k as int] == s);
                        } else if longer.contains(s) {
                            let j = choose|j: int| 0 <= j < longer.len() && longer[j] == s;
                            assert(shorter[j] == s);
                        }
                    }
                }
                k = k + 1;
            }
            proof {
                assert(list@.take(list@.len() as int) =~= list@);
                let shorter = cands.take(i as int);
                let longer = cands.take(i as int + 1);
                assert forall|s: usize| s < POLICY_DIM implies #[trigger] mask@[s as int]
                    == slot_taken(longer, s) by {
                    assert(before[s as int] == slot_taken(shorter, s));
                    if slot_taken(shorter, s) {
                        let j = choose|j: int|
                            0 <= j < shorter.len() && takes_slot(#[trigger] shorter[j], s);
                        assert(takes_slot(longer[j], s));
                    }
                    if takes_slot(cands[i as int], s) {
                        assert(takes_slot(longer[i as int], s));
                    }
                    if slot_taken(longer, s) && !takes_slot(cands[i as int], s) {
                        let j = choose|j: int|
                            0 <= j < longer.len() && takes_slot(#[trigger] longer[j], s);
                        assert(takes_slot(shorter[j], s));
                    }
                }
            }
            i = i + 1;
        }
        assert(cands.take(cands.len() as int) =~= cands);
        mask
    }
}

/// The rollouts of a sample can be paired: every candidate has as many as the first, and each of
/// them keeps its place. Its slots lie in the policy head.
pub proof fn law_samples_pair_their_rollouts(s: &RamenTrainingSample, input_dim: usize, a: int)
    requires
        s.wf(input_dim),
        0 <= a < s.candidates@.len(),
    ensures
        s.candidates@[a].scores@.len() == s.candidates@[0].scores@.len(),
        s.candidates@[a].valid.entries().len() == s.candidates@[0].scores@.len(),
        s.candidates@[a].n == count_true(s.candidates@[a].valid.entries()),
        forall|k: int|
            0 <= k < s.candidates@[a].slots.slots().len()
                ==> #[trigger] s.candidates@[a].slots.slots()[k] < POLICY_DIM,
{
    lemma_candidates_sound(s.candidates@, 0, a);
    let c = s.candidates@[a];
    law_set_bits_are_successes(&c.valid);
    assert forall|k: int| 0 <= k < c.slots.slots().len() implies #[trigger] c.slots.slots()[k]
        < POLICY_DIM by {
        lemma_slots_in_range(c.slots.slots(), 0, k);
    }
}

/// The rollouts of a search in the order in which they were run, by candidate.
#[derive(Debug, Clone)]
pub struct OrderedRollouts {
    /// Seed of the search.
    pub root_seed: u64,
    /// For every candidate its rollouts.
    pub per_candidate: Vec<Vec<Option<Rollout>>>,
}

/// What keeps an answer from becoming a candidate, if anything does.
pub open spec fn answer_fault(stage: RamenStage, action: RamenAction, rollouts: Seq<Option<Rollout>>) -> Option<
    SimError,
> {
    match slots_for(stage, action@) {
        None => Some(SimError::Encoding),
        Some(slots) => if rollouts.len() == 0 {
            Some(SimError::BadSample(SampleFault::NoRollouts))
        } else if bad_rollout(rollouts, 0) is Some {
            Some(
                SimError::BadSample(
                    SampleFault::ScoreNotFinite { index: bad_rollout(rollouts, 0)->0 as usize },
                ),
            )
        } else {
            None
        },
    }
}

/// What keeps the answers from a position on from becoming candidates, if anything does.
pub open spec fn answers_unfit(
    stage: RamenStage,
    actions: Seq<RamenAction>,
    ordered: Seq<Vec<Option<Rollout>>>,
    from: int,
) -> Option<SimError>
    decreases actions.len() - from,
{
    if from >= actions.len() {
        None
    } else if answer_fault(stage, actions[from], ordered[from]@) is Some {
        answer_fault(stage, actions[from], ordered[from]@)
    } else {
        answers_unfit(stage, actions, ordered, from + 1)
    }
}

/// A candidate stands for an answer and its rollouts.
pub open spec fn stands_for(
    c: RamenCandidate,
    stage: RamenStage,
    action: RamenAction,
    rollouts: Seq<Option<Rollout>>,
) -> bool {
    &&& slots_for(stage, action@) == Some(slot_ints(c.slots.slots()))
    &&& holds_rollouts(c, c.slots, rollouts)
    &&& c.fault() is None
}

proof fn lemma_no_bad_slot(slots: Seq<usize>, from: int)
    requires
        0 <= from,
        forall|k: int| 0 <= k < slots.len() ==> #[trigger] slots[k] < POLICY_DIM,
    ensures
        bad_slot(slots, from) is None,
    decreases slots.len() - from,
{
    if from < slots.len() {
        lemma_no_bad_slot(slots, from + 1);
    }
}

/// Makes a candidate of an answer and its rollouts.
fn candidate_of(stage: RamenStage, action: &RamenAction, rollouts: &Vec<Option<Rollout>>) -> (r: Result<
    RamenCandidate,
    SimError,
>)
    requires
        rollouts@.len() <= u32::MAX,
    ensures
        match r {
            Ok(c) => answer_fault(stage, *action, rollouts@) is None && stands_for(
                c,
                stage,
                *action,
                rollouts@,
            ),
            Err(e) => answer_fault(stage, *action, rollouts@) == Some(e),
        },
{
    match slots_of(stage, action) {
        Ok(slots) => {
            proof {
                assert forall|k: int| 0 <= k < slots.slots().len() implies #[trigger] slots.slots()[k]
                    < POLICY_DIM by {
                    law_slots_in_range(stage, action@, k);
                    assert(slot_ints(slots.slots())[k] == slots.slots()[k]);
                }
                lemma_no_bad_slot(slots.slots(), 0);
            }
            RamenCandidate::from_rollouts(slots, rollouts)
        },
        Err(e) => Err(e),
    }
}

/// A sample tells what a search found: its candidates stand for the answers in their order, and
/// it names turn, stage and seed.
pub open spec fn exported(
    s: RamenTrainingSample,
    actions: Seq<RamenAction>,
    ordered: OrderedRollouts,
    features: Seq<u32>,
    turn: i32,
    stage: RamenStage,
    index: u64,
) -> bool {
    &&& s.meta.index == index
    &&& s.meta.turn == turn
    &&& code_of(stage) == Some(s.meta.stage)
    &&& s.meta.root_seed == ordered.root_seed
    &&& s.features@ == features
    &&& s.candidates@.len() == actions.len()
    &&& forall|i: int|
        0 <= i < actions.len() ==> stands_for(
            #[trigger] s.candidates@[i],
            stage,
            actions[i],
            ordered.per_candidate@[i]@,
        )
}

/// What keeps a search from becoming a sample before its candidates are compared with each other,
/// if anything does.
pub open spec fn export_fault(
    actions: Seq<RamenAction>,
    ordered: Option<OrderedRollouts>,
    stage: RamenStage,
) -> Option<SimError> {
    match ordered {
        None => Some(SimError::BadSample(SampleFault::NotRecorded)),
        Some(o) => if o.per_candidate@.len() != actions.len() {
            Some(
                SimError::BadSample(
                    SampleFault::ListLen {
                        got: o.per_candidate@.len() as usize,
                        want: actions.len() as usize,
                    },
                ),
            )
        } else if answers_unfit(stage, actions, o.per_candidate@, 0) is Some {
            answers_unfit(stage, actions, o.per_candidate@, 0)
        } else if code_of(stage) is None {
            Some(SimError::WrongStage)
        } else {
            None
        },
    }
}

/// The number of rollouts of a candidate differs from that of the first.
pub open spec fn uneven(ordered: Seq<Vec<Option<Rollout>>>, from: int) -> Option<SampleFault>
    decreases ordered.len() - from,
{
    if from >= ordered.len() {
        None
    } else if ordered[from]@.len() != ordered[0]@.len() {
        Some(
            SampleFault::RolloutCount {
                index: from as usize,
                got: ordered[from]@.len() as usize,
                want: ordered[0]@.len() as usize,
            },
        )
    } else {
        uneven(ordered, from + 1)
    }
}

proof fn lemma_uneven(
    candidates: Seq<RamenCandidate>,
    ordered: Seq<Vec<Option<Rollout>>>,
    from: int,
)
    requires
        0 <= from,
        candidates.len() == ordered.len(),
        forall|i: int| 0 <= i < candidates.len() ==> (#[trigger] candidates[i]).fault() is None,
        forall|i: int|
            0 <= i < candidates.len() ==> (#[trigger] candidates[i]).scores@.len()
                == ordered[i]@.len(),
    ensures
        candidates_fault(candidates, from) == uneven(ordered, from),
    decreases candidates.len() - from,
{
    if from < candidates.len() {
        lemma_uneven(candidates, ordered, from + 1);
        assert(candidates[from].fault() is None);
        assert(candidates[0].scores@.len() == ordered[0]@.len());
    }
}

/// What keeps the numbers of a search from becoming a sample, if anything does.
pub open spec fn numbers_fault(
    actions: Seq<RamenAction>,
    ordered: OrderedRollouts,
    features: Seq<u32>,
    input_dim: usize,
) -> Option<SimError> {
    if features.len() != input_dim {
        Some(
            SimError::BadSample(
                SampleFault::FeatureLen { got: features.len() as usize, want: input_dim },
            ),
        )
    } else if bad_feature(features, 0) is Some {
        Some(
            SimError::BadSample(
                SampleFault::FeatureNotFinite { index: bad_feature(features, 0)->0 as usize },
            ),
        )
    } else if actions.len() == 0 {
        Some(SimError::BadSample(SampleFault::NoCandidate))
    } else if uneven(ordered.per_candidate@, 0) is Some {
        Some(SimError::BadSample(uneven(ordered.per_candidate@, 0)->0))
    } else {
        None
    }
}

/// Turns the outcome of a search into a sample, given the features of the position. Refused where
/// the search did not record its rollouts in order, where they are not those of the answers, and
/// where a sample would not be in order.
pub fn export_ramen_sample(
    actions: &Vec<RamenAction>,
    ordered: &Option<OrderedRollouts>,
    features: Vec<u32>,
    turn: i32,
    stage: RamenStage,
    index: u64,
    input_dim: usize,
) -> (r: Result<RamenTrainingSample, SimError>)
    requires
        ordered matches Some(o) ==> forall|i: int|
            0 <= i < o.per_candidate@.len() ==> (#[trigger] o.per_candidate@[i])@.len() <= u32::MAX,
    ensures
        match r {
            Ok(s) => {
                &&& export_fault(actions@, *ordered, stage) is None
                &&& numbers_fault(actions@, ordered->0, features@, input_dim) is None
                &&& s.wf(input_dim)
                &&& exported(s, actions@, ordered->0, features@, turn, stage, index)
            },
            Err(e) => export_fault(actions@, *ordered, stage) == Some(e) || (export_fault(
                actions@,
                *ordered,
                stage,
            ) is None && numbers_fault(actions@, ordered->0, features@, input_dim) == Some(e)),
        },
{
    let o: &OrderedRollouts = match ordered {
        Some(o) => o,
        None => {
            return Err(SimError::BadSample(SampleFault::NotRecorded));
        },
    };
    if o.per_candidate.len() != actions.len() {
        return Err(
            SimError::BadSample(
                SampleFault::ListLen { got: o.per_candidate.len(), want: actions.len() },
            ),
        );
    }
    let mut candidates: Vec<RamenCandidate> = Vec::new();
    let mut i: usize = 0;
    while i < actions.len()
        invariant
            i <= actions@.len(),
            *ordered == Some(*o),
            o.per_candidate@.len() == actions@.len(),
            forall|k: int|
                0 <= k < o.per_candidate@.len() ==> (#[trigger] o.per_candidate@[k])@.len()
                    <= u32::MAX,
            candidates@.len() == i,
            answers_unfit(stage, actions@, o.per_candidate@, 0) == answers_unfit(
                stage,
                actions@,
                o.per_candidate@,
                i as int,
            ),
            forall|k: int|
                0 <= k < i ==> stands_for(
                    #[trigger] candidates@[k],
                    stage,
                    actions@[k],
                    o.per_candidate@[k]@,
                ),
        decreases actions@.len() - i,
    {
        match candidate_of(stage, &actions[i], &o.per_candidate[i]) {
            Ok(c) => {
                candidates.push(c);
            },
            Err(e) => {
                return Err(e);
            },
        }
        i = i + 1;
    }
    let meta: RamenSampleMeta = match RamenSampleMeta::new(index, turn, &stage, o.root_seed) {
        Ok(m) => m,
        Err(e) => {
            return Err(e);
        },
    };
    proof {
        law_stage_codes_are_distinct(stage, stage);
        assert forall|k: int| 0 <= k < candidates@.len() implies (
        #[trigger] candidates@[k]).scores@.len() == o.per_candidate@[k]@.len() by {
            assert(stands_for(candidates@[k], stage, actions@[k], o.per_candidate@[k]@));
        }
        lemma_uneven(candidates@, o.per_candidate@, 0);
    }
    RamenTrainingSample::new(meta, features, candidates, input_dim)
}

// ========== Batches ==========

/// Samples that are kept together.
#[derive(Debug, Clone)]
pub struct RamenSampleBatch {
    pub samples: Vec<RamenTrainingSample>,
}

/// The first sample, from a position on, that was written in another format.
pub open spec fn bad_version(samples: Seq<RamenTrainingSample>, from: int) -> Option<int>
    decreases samples.len() - from,
{
    if from >= samples.len() {
        None
    } else if samples[from].format_version != SAMPLE_FORMAT_VERSION {
        Some(from)
    } else {
        bad_version(samples, from + 1)
    }
}

impl Default for RamenSampleBatch {
    fn default() -> (b: RamenSampleBatch)
        ensures
            b.samples@ == Seq::<RamenTrainingSample>::empty(),
    {
        RamenSampleBatch { samples: Vec::new() }
    }
}

impl RamenSampleBatch {
    /// An empty batch.
    pub fn new() -> (b: RamenSampleBatch)
        ensures
            b.samples@ == Seq::<RamenTrainingSample>::empty(),
    {
        RamenSampleBatch { samples: Vec::new() }
    }

    /// Adds a sample.
    pub fn push(&mut self, sample: RamenTrainingSample)
        ensures
            final(self).samples@ == old(self).samples@.push(sample),
    {
        self.samples.push(sample);
    }

    /// Number of samples.
    pub fn len(&self) -> (n: usize)
        ensures
            n == self.samples@.len(),
    {
        self.samples.len()
    }

    /// Whether there is no sample.
    pub fn is_empty(&self) -> (b: bool)
        ensures
            b == (self.samples@.len() == 0),
    {
        self.samples.len() == 0
    }

    /// Whether all samples were written in this format.
    pub fn check_versions(&self) -> (r: Result<(), SimError>)
        ensures
            match r {
                Ok(_) => bad_version(self.samples@, 0) is None,
                Err(e) => bad_version(self.samples@, 0) matches Some(i) && e == SimError::BadSample(
                    SampleFault::Version {
                        index: i as usize,
                        version: self.samples@[i].format_version,
                    },
                ),
            },
    {
        let mut i: usize = 0;
        while i < self.samples.len()
            invariant
                i <= self.samples@.len(),
                bad_version(self.samples@, 0) == bad_version(self.samples@, i as int),
            decreases self.samples@.len() - i,
        {
            if self.samples[i].format_version != SAMPLE_FORMAT_VERSION {
                return Err(
                    SimError::BadSample(
                        SampleFault::Version {
                            index: i,
                            version: self.samples[i].format_version,
                        },
                    ),
                );
            }
            i = i + 1;
        }
        Ok(())
    }
}

/// A number in double precision is finite unless all eleven bits of its exponent are set; likewise in
/// single precision with eight bits.
pub proof fn law_finite_numbers(d: u64, s: u32)
    ensures
        finite_double(d) <==> d & 0x7ff0_0000_0000_0000 != 0x7ff0_0000_0000_0000,
        finite_single(s) <==> s & 0x7f80_0000 != 0x7f80_0000,
{
    assert(((d >> 52) & 0x7ff != 0x7ff) <==> (d & 0x7ff0_0000_0000_0000 != 0x7ff0_0000_0000_0000))
        by (bit_vector);
    assert(((s >> 23) & 0xff != 0xff) <==> (s & 0x7f80_0000 != 0x7f80_0000)) by (bit_vector);
}

/// The entry of a mask stands in its word and bit, sixty-four to a word; a mask has as many words as
/// its entries need.
pub proof fn law_mask_layout(m: &ValidMask, w: int, b: int)
    requires
        m.sized(),
        0 <= w,
        0 <= b < 64,
        64 * w + b < m.len,
    ensures
        m.entries().len() == m.len,
        m.entries()[64 * w + b] == ((m.words@[w] >> (b as u64)) & 1 == 1),
        64 * m.words@.len() >= m.len,
        64 * m.words@.len() < m.len + 64,
{
    let i = 64 * w + b;
    vstd::arithmetic::div_mod::lemma_fundamental_div_mod_converse(i, 64, w, b);
}

/// A candidate keeps its rollouts in their order: a success with its score, a failure as zero and
/// marked, and counts its successes.
pub proof fn law_candidate_keeps_its_rollouts(
    c: RamenCandidate,
    slots: PolicySlots,
    rollouts: Seq<Option<Rollout>>,
    i: int,
)
    requires
        holds_rollouts(c, slots, rollouts),
        0 <= i < rollouts.len(),
    ensures
        c.scores@.len() == rollouts.len(),
        rollouts[i] matches Some(r) ==> c.scores@[i] == r.kept && c.valid.entries()[i],
        rollouts[i] is None ==> c.scores@[i] == 0 && !c.valid.entries()[i],
        (forall|k: int| 0 <= k < rollouts.len() ==> (#[trigger] rollouts[k]) is Some) ==> c.n
            == rollouts.len(),
        (forall|k: int| 0 <= k < rollouts.len() ==> (#[trigger] rollouts[k]) is None) ==> c.n == 0,
{
    let e = c.valid.entries();
    if forall|k: int| 0 <= k < rollouts.len() ==> (#[trigger] rollouts[k]) is Some {
        assert forall|k: int| 0 <= k < e.len() implies #[trigger] e[k] == true by {
            assert(rollouts[k] is Some);
        }
        lemma_count_same(e, true);
    }
    if forall|k: int| 0 <= k < rollouts.len() ==> (#[trigger] rollouts[k]) is None {
        assert forall|k: int| 0 <= k < e.len() implies #[trigger] e[k] == false by {
            assert(rollouts[k] is None);
        }
        lemma_count_same(e, false);
    }
}

proof fn lemma_count_same(e: Seq<bool>, b: bool)
    requires
        forall|k: int| 0 <= k < e.len() ==> #[trigger] e[k] == b,
    ensures
        count_true(e) == if b {
            e.len() as int
        } else {
            0
        },
    decreases e.len(),
{
    if e.len() > 0 {
        assert(e[e.len() - 1] == b);
        lemma_count_same(e.drop_last(), b);
    }
}

/// One more success raises the count by one, one more failure does not.
pub proof fn law_successes_are_counted(s: Seq<bool>, b: bool)
    ensures
        count_true(s.push(b)) == count_true(s) + (if b {
            1int
        } else {
            0
        }),
        count_true(Seq::empty()) == 0,
{
    assert(s.push(b).drop_last() =~= s);
}

/// Rollouts are refused for want of any, for a place beyond the last, and for a score that is not
/// finite, of which the first is named; otherwise they are taken.
pub proof fn law_rollouts_are_taken_iff_sound(slots: PolicySlots, rollouts: Seq<Option<Rollout>>)
    ensures
        rollouts_fault(slots, rollouts) is None <==> {
            &&& rollouts.len() > 0
            &&& forall|k: int| 0 <= k < slots.slots().len() ==> #[trigger] slots.slots()[k] < 234
            &&& forall|k: int|
                0 <= k < rollouts.len() ==> ((#[trigger] rollouts[k]) matches Some(r)
                    ==> finite_double(r.raw))
        },
        rollouts_fault(slots, rollouts) matches Some(SampleFault::ScoreNotFinite { index })
            ==> rollouts.len() <= usize::MAX ==> index < rollouts.len() && (rollouts[index as int] matches Some(
            r,
        ) && !finite_double(r.raw)),
        rollouts_fault(slots, rollouts) matches Some(SampleFault::SlotOutOfRange { slot }) ==> slot
            >= 234 && slots.slots().contains(slot),
{
    lemma_bad_slot(slots.slots(), 0);
    lemma_bad_rollout(rollouts, 0);
}

proof fn lemma_bad_slot(slots: Seq<usize>, from: int)
    requires
        0 <= from,
    ensures
        bad_slot(slots, from) is None <==> forall|k: int|
            from <= k < slots.len() ==> #[trigger] slots[k] < POLICY_DIM,
        bad_slot(slots, from) matches Some(s) ==> s >= POLICY_DIM && slots.contains(s),
    decreases slots.len() - from,
{
    if from < slots.len() {
        if slots[from] < POLICY_DIM {
            lemma_bad_slot(slots, from + 1);
        } else {
            assert(slots.contains(slots[from]));
        }
    }
}

proof fn lemma_bad_rollout(rollouts: Seq<Option<Rollout>>, from: int)
    requires
        0 <= from,
    ensures
        bad_rollout(rollouts, from) is None <==> forall|k: int|
            from <= k < rollouts.len() ==> ((#[trigger] rollouts[k]) matches Some(r)
                ==> finite_double(r.raw)),
        bad_rollout(rollouts, from) matches Some(i) ==> from <= i < rollouts.len() && (
        rollouts[i] matches Some(r) && !finite_double(r.raw)),
    decreases rollouts.len() - from,
{
    if from < rollouts.len() {
        lemma_bad_rollout(rollouts, from + 1);
    }
}

/// A sample is sound where its features have the expected number and are finite, and its candidates
/// are there, each in itself sound and with as many rollouts as the first, and its stage is one on
/// which decisions are made.
pub proof fn law_sample_is_sound_iff(
    meta: RamenSampleMeta,
    features: Seq<u32>,
    candidates: Seq<RamenCandidate>,
    input_dim: usize,
)
    ensures
        sample_fault(meta, features, candidates, input_dim) is None <==> {
            &&& features.len() == input_dim
            &&& forall|k: int| 0 <= k < features.len() ==> finite_single(#[trigger] features[k])
            &&& candidates.len() > 0
            &&& forall|k: int|
                0 <= k < candidates.len() ==> (#[trigger] candidates[k]).fault() is None
                    && candidates[k].scores@.len() == candidates[0].scores@.len()
            &&& meta.stage <= 4
        },
{
    lemma_bad_feature(features, 0);
    lemma_candidates_fault(candidates, 0);
}

proof fn lemma_bad_feature(features: Seq<u32>, from: int)
    requires
        0 <= from,
    ensures
        bad_feature(features, from) is None <==> forall|k: int|
            from <= k < features.len() ==> finite_single(#[trigger] features[k]),
    decreases features.len() - from,
{
    if from < features.len() {
        lemma_bad_feature(features, from + 1);
    }
}

proof fn lemma_candidates_fault(candidates: Seq<RamenCandidate>, from: int)
    requires
        0 <= from,
    ensures
        candidates_fault(candidates, from) is None <==> forall|k: int|
            from <= k < candidates.len() ==> (#[trigger] candidates[k]).fault() is None
                && candidates[k].scores@.len() == candidates[0].scores@.len(),
    decreases candidates.len() - from,
{
    if from < candidates.len() {
        lemma_candidates_fault(candidates, from + 1);
    }
}

/// The stages on which decisions are made have the codes zero to four: bowl, flavours, training, super
/// ramen, regions.
pub proof fn law_stage_codes(stage: RamenStage)
    ensures
        code_of(RamenStage::RamenSelect) == Some(0u8),
        code_of(RamenStage::SpecialSelect) == Some(1u8),
        code_of(RamenStage::Train) == Some(2u8),
        code_of(RamenStage::SuperRamenSelect) == Some(3u8),
        code_of(RamenStage::RegionSelect) == Some(4u8),
        stage == RamenStage::Begin || stage == RamenStage::BeginAfterRegionSelect || stage
            == RamenStage::Distribute || stage == RamenStage::AfterTrain || stage
            == RamenStage::NextTurn || stage == RamenStage::Settlement ==> code_of(stage) is None,
{
}

/// An exported sample answers for its actions one by one: the candidate at a position has the places
/// of the action there, and as many scores as there were rollouts for it.
pub proof fn law_export_keeps_positions(
    s: RamenTrainingSample,
    actions: Seq<RamenAction>,
    ordered: OrderedRollouts,
    features: Seq<u32>,
    turn: i32,
    stage: RamenStage,
    index: u64,
    i: int,
)
    requires
        exported(s, actions, ordered, features, turn, stage, index),
        0 <= i < actions.len(),
    ensures
        s.candidates@.len() == actions.len(),
        slots_for(stage, actions[i]@) == Some(slot_ints(s.candidates@[i].slots.slots())),
        s.candidates@[i].scores@.len() == ordered.per_candidate@[i]@.len(),
        s.meta.turn == turn,
        s.meta.index == index,
        s.meta.root_seed == ordered.root_seed,
        s.features@ == features,
{
    assert(stands_for(s.candidates@[i], stage, actions[i], ordered.per_candidate@[i]@));
}

/// A batch holds samples of the first format alone: the first sample of another one is named.
pub proof fn law_batch_has_one_format(samples: Seq<RamenTrainingSample>, from: int)
    requires
        0 <= from,
    ensures
        bad_version(samples, from) is None <==> forall|k: int|
            from <= k < samples.len() ==> (#[trigger] samples[k]).format_version == 1,
        bad_version(samples, from) matches Some(i) ==> from <= i < samples.len()
            && samples[i].format_version != 1 && forall|k: int|
            from <= k < i ==> (#[trigger] samples[k]).format_version == 1,
    decreases samples.len() - from,
{
    if from < samples.len() {
        law_batch_has_one_format(samples, from + 1);
    }
}

/// An export is refused where nothing was recorded, where the lists differ in length, where an answer
/// has no place or no sound rollouts, and at stages without decisions; from what is left, features of
/// another number or not finite, no action at all and uneven rollouts are refused.
pub proof fn law_export_is_refused_iff(
    actions: Seq<RamenAction>,
    o: OrderedRollouts,
    stage: RamenStage,
    features: Seq<u32>,
    input_dim: usize,
)
    ensures
        export_fault(actions, None, stage) is Some,
        export_fault(actions, Some(o), stage) is None <==> {
            &&& o.per_candidate@.len() == actions.len()
            &&& code_of(stage) is Some
            &&& forall|i: int|
                0 <= i < actions.len() ==> slots_for(stage, (#[trigger] actions[i])@) is Some
                    && o.per_candidate@[i]@.len() > 0 && bad_rollout(o.per_candidate@[i]@, 0) is None
        },
        numbers_fault(actions, o, features, input_dim) is None <==> {
            &&& features.len() == input_dim
            &&& forall|k: int| 0 <= k < features.len() ==> finite_single(#[trigger] features[k])
            &&& actions.len() > 0
            &&& forall|k: int|
                0 <= k < o.per_candidate@.len() ==> (#[trigger] o.per_candidate@[k])@.len()
                    == o.per_candidate@[0]@.len()
        },
{
    if o.per_candidate@.len() == actions.len() {
        lemma_answers_unfit(stage, actions, o.per_candidate@, 0);
    }
    lemma_bad_feature(features, 0);
    lemma_even(o.per_candidate@, 0);
}

proof fn lemma_answers_unfit(
    stage: RamenStage,
    actions: Seq<RamenAction>,
    ordered: Seq<Vec<Option<Rollout>>>,
    from: int,
)
    requires
        0 <= from,
        ordered.len() == actions.len(),
    ensures
        answers_unfit(stage, actions, ordered, from) is None <==> forall|i: int|
            from <= i < actions.len() ==> slots_for(stage, (#[trigger] actions[i])@) is Some
                && ordered[i]@.len() > 0 && bad_rollout(ordered[i]@, 0) is None,
    decreases actions.len() - from,
{
    if from < actions.len() {
        lemma_answers_unfit(stage, actions, ordered, from + 1);
        assert(answer_fault(stage, actions[from], ordered[from]@) is None <==> slots_for(
            stage,
            actions[from]@,
        ) is Some && ordered[from]@.len() > 0 && bad_rollout(ordered[from]@, 0) is None);
    }
}

proof fn lemma_even(ordered: Seq<Vec<Option<Rollout>>>, from: int)
    requires
        0 <= from,
    ensures
        uneven(ordered, from) is None <==> forall|k: int|
            from <= k < ordered.len() ==> (#[trigger] ordered[k])@.len() == ordered[0]@.len(),
    decreases ordered.len() - from,
{
    if from < ordered.len() {
        lemma_even(ordered, from + 1);
    }
}

/// A place is marked legal exactly where some candidate takes it.
pub proof fn law_legal_places_are_taken(candidates: Seq<RamenCandidate>, slot: usize)
    ensures
        slot_taken(candidates, slot) <==> exists|i: int, k: int|
            0 <= i < candidates.len() && 0 <= k < candidates[i].slots.slots().len()
                && #[trigger] candidates[i].slots.slots()[k] == slot,
        !slot_taken(Seq::empty(), slot),
{
    if slot_taken(candidates, slot) {
        let i = choose|i: int| 0 <= i < candidates.len() && takes_slot(#[trigger] candidates[i], slot);
        let s = candidates[i].slots.slots();
        let k = choose|k: int| 0 <= k < s.len() && s[k] == slot;
        assert(candidates[i].slots.slots()[k] == slot);
    }
    if exists|i: int, k: int|
        0 <= i < candidates.len() && 0 <= k < candidates[i].slots.slots().len()
            && #[trigger] candidates[i].slots.slots()[k] == slot {
        let (i, k) = choose|i: int, k: int|
            0 <= i < candidates.len() && 0 <= k < candidates[i].slots.slots().len()
                && #[trigger] candidates[i].slots.slots()[k] == slot;
        assert(takes_slot(candidates[i], slot));
    }
}

} // verus!
