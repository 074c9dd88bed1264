use vstd::prelude::*;
use crate::gamedata::constants::GameConstants;
use crate::text::{after_last, tail_after};

verus! {

/// A span of turns in which a number of freely chosen races is demanded.
#[derive(Debug, Clone, Copy, Default)]
pub struct FreeRaceData {
    /// First turn.
    pub start_turn: u32,
    /// Last turn.
    pub end_turn: u32,
    /// Races demanded.
    pub count: u32,
    /// Lowest grade that counts, if any.
    pub grade: Option<u32>,
    /// Turns on which a race counts; bit `b` stands for turn `b + 11`.
    pub mask: u64,
}

/// Whether bit `b` is set.
pub open spec fn bit(mask: u64, b: u64) -> bool {
    (mask >> b) & 1 == 1
}

proof fn lemma_set_bit(mask: u64, b: u64, c: u64)
    requires
        b < 64,
        c < 64,
    ensures
        bit(mask | (1u64 << b), c) == (bit(mask, c) || b == c),
{
    assert(((mask | (1u64 << b)) >> c) & 1 == 1 <==> ((mask >> c) & 1 == 1 || b == c)) by (bit_vector)
        requires
            b < 64,
            c < 64,
    ;
}

/// A bitset with one more bit set.
pub fn with_bit(mask: u64, b: u64) -> (r: u64)
    requires
        b < 64,
    ensures
        r == mask | (1u64 << b),
        forall|c: u64| c < 64 ==> #[trigger] bit(r, c) == (bit(mask, c) || b == c),
{
    let r: u64 = mask | (1u64 << b);
    assert forall|c: u64| c < 64 implies #[trigger] bit(r, c) == (bit(mask, c) || b == c) by {
        lemma_set_bit(mask, b, c);
    }
    r
}

/// Whether a bit is set.
pub fn has_bit(mask: u64, b: u64) -> (r: bool)
    requires
        b < 64,
    ensures
        r == bit(mask, b),
{
    (mask >> b) & 1 == 1
}

impl FreeRaceData {
    /// A race on this turn counts for the span.
    pub open spec fn counts_on(&self, cons: &GameConstants, turn: int) -> bool {
        &&& self.start_turn <= turn <= self.end_turn
        &&& self.grade matches Some(g) ==> cons.race_grades@[turn] <= g as i32
    }

    /// The span lies within the turns that a mask can hold, and the grades of its turns are known
    /// where they matter.
    pub open spec fn maskable(&self, cons: &GameConstants) -> bool {
        &&& 11 <= self.start_turn
        &&& self.end_turn < 75
        &&& self.grade is Some ==> self.end_turn < cons.race_grades@.len()
    }

    /// Fills the mask: every turn of the span whose race meets the grade.
    pub fn update_turn_mask(&mut self, cons: &GameConstants)
        requires
            old(self).maskable(cons),
        ensures
            masked(*old(self), *final(self), cons),
    {
        let mut mask: u64 = 0;
        let mut i: u32 = self.start_turn;
        let end: u32 = self.end_turn;
        assert forall|b: u64| b < 64 implies !#[trigger] bit(0u64, b) by {
            assert((0u64 >> b) & 1 == 0) by (bit_vector)
                requires
                    b < 64,
            ;
        }
        while i <= end
            invariant
                11 <= self.start_turn,
                self.start_turn <= i,
                i <= end + 1 || i == self.start_turn,
                end == self.end_turn,
                end < 75,
                *self == *old(self),
                self.grade is Some ==> end < cons.race_grades@.len(),
                forall|turn: int|
                    11 <= turn < 75 ==> #[trigger] bit(mask, (turn - 11) as u64) == (turn < i
                        && self.counts_on(cons, turn)),
            decreases end + 1 - i,
        {
            let ghost before = mask;
            let counts: bool = match self.grade {
                Some(g) => cons.race_grades[i as usize] <= g as i32,
                None => true,
            };
            if counts {
                mask = with_bit(mask, (i - 11) as u64);
            }
            assert forall|turn: int| 11 <= turn < 75 implies #[trigger] bit(
                mask,
                (turn - 11) as u64,
            ) == (turn < i + 1 && self.counts_on(cons, turn)) by {
                assert(bit(before, (turn - 11) as u64) == (turn < i && self.counts_on(cons, turn)));
            }
            i = i + 1;
        }
        self.mask = mask;
    }
}

/// A span whose mask holds exactly the turns that count for it.
pub open spec fn masked(before: FreeRaceData, after: FreeRaceData, cons: &GameConstants) -> bool {
    &&& forall|turn: int|
        11 <= turn < 75 ==> #[trigger] bit(after.mask, (turn - 11) as u64) == before.counts_on(
            cons,
            turn,
        )
    &&& after == (FreeRaceData { mask: after.mask, ..before })
}

/// A character.
#[derive(Debug, Clone, Default)]
pub struct UmaData {
    /// Number of the character.
    pub game_id: u32,
    /// Stars.
    pub star: u32,
    /// Full name, with a title in brackets.
    pub name: String,
    /// Growth rates.
    pub five_status_bonus: [i32; 5],
    /// Initial status values.
    pub five_status_initial: [i32; 5],
    /// Turns of the career races.
    pub races: Vec<i32>,
    /// Spans with freely chosen races.
    pub free_races: Vec<FreeRaceData>,
}

impl UmaData {
    /// The name without the title: what follows the last bracket.
    pub fn short_name(&self) -> (r: &str)
        ensures
            r@ == after_last(self.name@, ']'),
    {
        tail_after(self.name.as_str(), ']')
    }

    /// Fills the masks of all spans with freely chosen races.
    pub fn update_masks(&mut self, cons: &GameConstants)
        requires
            forall|i: int|
                0 <= i < old(self).free_races@.len() ==> (#[trigger] old(self).free_races@[i]).maskable(
                    cons,
                ),
        ensures
            final(self).free_races@.len() == old(self).free_races@.len(),
            forall|i: int|
                0 <= i < old(self).free_races@.len() ==> masked(
                    old(self).free_races@[i],
                    #[trigger] final(self).free_races@[i],
                    cons,
                ),
            *final(self) == (UmaData { free_races: final(self).free_races, ..*old(self) }),
    {
        let mut i: usize = 0;
        while i < self.free_races.len()
            invariant
                i <= self.free_races@.len(),
                self.free_races@.len() == old(self).free_races@.len(),
                *self == (UmaData { free_races: self.free_races, ..*old(self) }),
                forall|k: int|
                    0 <= k < old(self).free_races@.len() ==> (
                    #[trigger] old(self).free_races@[k]).maskable(cons),
                forall|k: int|
                    0 <= k < i ==> masked(
                        old(self).free_races@[k],
                        #[trigger] self.free_races@[k],
                        cons,
                    ),
                forall|k: int|
                    i <= k < self.free_races@.len() ==> #[trigger] self.free_races@[k] == old(
                        self).free_races@[k],
            decreases self.free_races@.len() - i,
        {
            let mut f: FreeRaceData = self.free_races[i];
            assert(old(self).free_races@[i as int].maskable(cons));
            f.update_turn_mask(cons);
            self.free_races.set(i, f);
            i = i + 1;
        }
    }

    /// Packs the career races into a bitset over the turns from 11 on.
    pub fn zip_races(&self) -> (mask: u64)
        requires
            forall|i: int| 0 <= i < self.races@.len() ==> 11 <= #[trigger] self.races@[i] < 75,
        ensures
            forall|turn: int|
                11 <= turn < 75 ==> #[trigger] bit(mask, (turn - 11) as u64) == self.races@.contains(
                    turn as i32,
                ),
    {
        let mut mask: u64 = 0;
        let mut i: usize = 0;
        assert forall|b: u64| b < 64 implies !#[trigger] bit(0u64, b) by {
            assert((0u64 >> b) & 1 == 0) by (bit_vector)
                requires
                    b < 64,
            ;
        }
        while i < self.races.len()
            invariant
                i <= self.races@.len(),
                forall|j: int| 0 <= j < self.races@.len() ==> 11 <= #[trigger] self.races@[j] < 75,
                forall|turn: int|
                    11 <= turn < 75 ==> #[trigger] bit(mask, (turn - 11) as u64)
                        == self.races@.take(i as int).contains(turn as i32),
            decreases self.races@.len() - i,
        {
            let ghost before = mask;
            let race: i32 = self.races[i];
            mask = with_bit(mask, (race - 11) as u64);
            proof {
                let pre = self.races@.take(i as int);
                let next = self.races@.take(i as int + 1);
                assert(next =~= pre.push(race));
                assert forall|turn: int| 11 <= turn < 75 implies #[trigger] bit(
                    mask,
                    (turn - 11) as u64,
                ) == next.contains(turn as i32) by {
                    assert(bit(before, (turn - 11) as u64) == pre.contains(turn as i32));
                    if pre.contains(turn as i32) {
                        let k = choose|k: int| 0 <= k < pre.len() && pre[k] == turn as i32;
                        assert(next[k] == turn as i32);
                    }
                    if turn == race {
                        assert(next[i as int] == turn as i32);
                    }
                    if next.contains(turn as i32) && turn != race {
                        let k = choose|k: int| 0 <= k < next.len() && next[k] == turn as i32;
                        assert(pre[k] == turn as i32);
                    }
                }
            }
            i = i + 1;
        }
        assert(self.races@.take(self.races@.len() as int) =~= self.races@);
        mask
    }
}

/// The mask of a span holds the turns of the span on which a race of its grade or better takes place,
/// and no other turn.
pub proof fn law_mask_holds_the_span(
    before: FreeRaceData,
    after: FreeRaceData,
    cons: &GameConstants,
    turn: int,
)
    requires
        masked(before, after, cons),
        11 <= turn < 75,
    ensures
        before.grade is None ==> ((after.mask >> ((turn - 11) as u64)) & 1 == 1 <==> after.start_turn
            <= turn <= after.end_turn),
        before.grade matches Some(g) ==> ((after.mask >> ((turn - 11) as u64)) & 1 == 1
            <==> after.start_turn <= turn <= after.end_turn && cons.race_grades@[turn] <= g as i32),
        after.count == before.count,
{
    assert(bit(after.mask, (turn - 11) as u64) == before.counts_on(cons, turn));
}

} // verus!
