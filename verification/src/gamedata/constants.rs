use vstd::prelude::*;
use crate::single::Single;

verus! {

/// Rule tables that all scenarios share.
#[derive(Debug, Clone, Default)]
pub struct GameConstants {
    /// Turns without random events.
    pub no_event_turns: Vec<i32>,
    /// Names of the five trainings.
    pub train_names: Vec<String>,
    /// Score of a status value, by value.
    pub five_status_final_score: Vec<i32>,
    /// Grade of the best race of a turn, by turn; zero where there is none.
    pub race_grades: Vec<i32>,
    /// Status caps of scenarios that bring none of their own.
    pub five_status_limit_base: [i32; 5],
    /// What a hint on an attribute gives, by training.
    pub hint_event_value: [[i32; 6]; 5],
    /// Chance of a hint in percent, in hundredths.
    pub base_hint_rate: i32,
    /// Skill points that a hint level is worth.
    pub hint_pt_rate: Single,
    /// Score of a skill point.
    pub pt_score_rate: Single,
    /// Weight of skills in the score that favours skill points.
    pub pt_favor_rate: Single,
}

/// Division by a positive number that rounds towards zero.
pub open spec fn div_trunc(a: int, b: int) -> int {
    if a >= 0 {
        a / b
    } else {
        -((-a) / b)
    }
}

/// The nearest machine integer.
pub open spec fn clip_i32(a: int) -> int {
    if a > i32::MAX {
        i32::MAX as int
    } else if a < i32::MIN {
        i32::MIN as int
    } else {
        a
    }
}

/// Rounds a quotient towards zero and clips it to the range of machine integers.
pub fn div_trunc_clip(a: i128, b: i128) -> (r: i32)
    requires
        b > 0,
        a > i128::MIN,
    ensures
        r == clip_i32(div_trunc(a as int, b as int)),
{
    let q: i128 = if a >= 0 {
        a / b
    } else {
        -((-a) / b)
    };
    if q > i32::MAX as i128 {
        i32::MAX
    } else if q < i32::MIN as i128 {
        i32::MIN
    } else {
        q as i32
    }
}

impl GameConstants {
    /// Scores can be computed: the table of status values is not empty, and the rates are in range.
    pub open spec fn scores_ready(&self) -> bool {
        &&& self.five_status_final_score@.len() > 0
        &&& self.hint_pt_rate.wf()
        &&& self.pt_score_rate.wf()
        &&& self.pt_favor_rate.wf()
    }

    /// The table entry for a status value: the first for negative ones, the last for values
    /// beyond the table.
    pub open spec fn final_score(&self, status: int) -> int {
        let n = self.five_status_final_score@.len() as int;
        if status <= 0 {
            self.five_status_final_score@[0] as int
        } else if status < n {
            self.five_status_final_score@[status] as int
        } else {
            self.five_status_final_score@[n - 1] as int
        }
    }

    /// Score of a status value.
    pub fn status_final_score(&self, status: i32) -> (score: i32)
        requires
            self.five_status_final_score@.len() > 0,
        ensures
            score == self.final_score(status as int),
    {
        let last: usize = self.five_status_final_score.len() - 1;
        let i: usize = if status <= 0 {
            0
        } else {
            (status as usize).min(last)
        };
        self.five_status_final_score[i]
    }
}

/// Division towards zero: the quotient times the divisor does not leave the number behind, and comes
/// within one divisor of it; the sign is that of the number.
pub proof fn law_division_rounds_towards_zero(a: int, b: int)
    requires
        b > 0,
    ensures
        a >= 0 ==> 0 <= div_trunc(a, b) * b <= a < div_trunc(a, b) * b + b,
        a < 0 ==> div_trunc(a, b) * b - b < a <= div_trunc(a, b) * b <= 0,
        div_trunc(-a, b) == -div_trunc(a, b),
{
    let m = if a >= 0 {
        a
    } else {
        -a
    };
    vstd::arithmetic::div_mod::lemma_fundamental_div_mod(m, b);
    vstd::arithmetic::div_mod::lemma_mod_bound(m, b);
    let q = m / b;
    vstd::arithmetic::div_mod::lemma_div_pos_is_pos(m, b);
    assert(b * q == q * b) by (nonlinear_arith);
    assert((-q) * b == -(q * b)) by (nonlinear_arith);
    assert(0 <= q * b) by (nonlinear_arith)
        requires
            0 <= q,
            b > 0,
    ;
    assert(0int / b == 0) by (nonlinear_arith)
        requires
            b > 0,
    ;
}

/// A status value is scored by its own entry of the table; below zero by the first, beyond the table by
/// the last.
pub proof fn law_scores_stay_in_the_table(cons: &GameConstants, status: int)
    requires
        cons.five_status_final_score@.len() > 0,
    ensures
        0 <= status < cons.five_status_final_score@.len() ==> cons.final_score(status)
            == cons.five_status_final_score@[status],
        status < 0 ==> cons.final_score(status) == cons.five_status_final_score@[0],
        status >= cons.five_status_final_score@.len() ==> cons.final_score(status)
            == cons.five_status_final_score@[cons.five_status_final_score@.len() - 1],
{
}

/// Clipping changes nothing that fits, and nothing but what does not.
pub proof fn law_clipping_keeps_what_fits(a: int)
    ensures
        -0x8000_0000 <= a <= 0x7fff_ffff ==> clip_i32(a) == a,
        a > 0x7fff_ffff ==> clip_i32(a) == 0x7fff_ffff,
        a < -0x8000_0000 ==> clip_i32(a) == -0x8000_0000,
{
}

} // verus!
