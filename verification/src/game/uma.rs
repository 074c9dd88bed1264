use vstd::prelude::*;
use crate::error::SimError;
use crate::gamedata::data::GameData;
use crate::gamedata::constants::GameConstants;
use crate::gamedata::event::{ActionValue, EventChoice};
use crate::gamedata::uma::{bit, has_bit, with_bit, FreeRaceData, UmaData};
use crate::paint::{paint, painted, Paint};
use crate::single::{
    law_score_scale,
    law_whole_rates_add_exactly,
    law_whole_rates_multiply_exactly,
    scale_score,
    scaled_score,
};
use crate::text::{append_if, append_int, dec, word_if};

verus! {

/// Conditions of the character in training.
#[derive(Debug, Clone, Copy, PartialEq, Eq, Structural, Default)]
pub struct UmaFlags {
    /// Learns skills at a discount.
    pub qiezhe: bool,
    /// Charming.
    pub aijiao: bool,
    /// Good at training.
    pub good_trainer: bool,
    /// Bad at training.
    pub bad_trainer: bool,
    /// Thinks positively.
    pub positive_thinking: bool,
    /// Turns for which the refreshed mind has lasted.
    pub refresh_mind: i32,
    /// Lucky.
    pub lucky: bool,
    /// Has won a plush.
    pub doll: bool,
    /// Ill.
    pub ill: bool,
}

/// The line that lists the conditions, given how the first one is coloured.
pub open spec fn flags_text(f: UmaFlags, qiezhe: Seq<char>) -> Seq<char> {
    word_if(f.qiezhe, qiezhe) + word_if(f.aijiao, "爱娇 "@) + word_if(
        f.good_trainer,
        "擅长训练 "@,
    ) + word_if(f.bad_trainer, "不擅长训练 "@) + word_if(f.positive_thinking, "正向思考 "@)
        + word_if(f.lucky, "幸运体质 "@) + word_if(f.doll, "抓过娃娃 "@) + word_if(
        f.ill,
        "*生病 "@,
    ) + word_if(
        f.refresh_mind > 0,
        "休息心得("@ + dec(f.refresh_mind as int) + "回合)"@,
    )
}

/// A line that lists the conditions, coloured or not.
pub open spec fn flags_explained(f: UmaFlags, out: Seq<char>) -> bool {
    exists|q: Seq<char>| #[trigger]
        painted("切者 "@, Paint::BrightGreen, q) && out == flags_text(f, q)
}

impl UmaFlags {
    /// The line that lists the conditions, given how the first one is coloured.
    pub fn explain_with(&self, qiezhe: &str) -> (s: String)
        ensures
            s@ == flags_text(*self, qiezhe@),
    {
        let mut rest: String = "休息心得(".to_owned();
        append_int(&mut rest, self.refresh_mind as i64);
        rest.append("回合)");
        let mut s: String = String::new();
        append_if(&mut s, self.qiezhe, qiezhe);
        append_if(&mut s, self.aijiao, "爱娇 ");
        append_if(&mut s, self.good_trainer, "擅长训练 ");
        append_if(&mut s, self.bad_trainer, "不擅长训练 ");
        append_if(&mut s, self.positive_thinking, "正向思考 ");
        append_if(&mut s, self.lucky, "幸运体质 ");
        append_if(&mut s, self.doll, "抓过娃娃 ");
        append_if(&mut s, self.ill, "*生病 ");
        append_if(&mut s, self.refresh_mind > 0, rest.as_str());
        assert(s@ =~= flags_text(*self, qiezhe@));
        s
    }

    /// The line that lists the conditions.
    pub fn explain(&self) -> (s: String)
        ensures
            flags_explained(*self, s@),
    {
        let q: String = paint("切者 ", Paint::BrightGreen);
        let s: String = self.explain_with(q.as_str());
        assert(painted("切者 "@, Paint::BrightGreen, q@) && s@ == flags_text(*self, q@));
        s
    }

    /// Gains conditions: each holds if it held or is gained, and turns add up.
    pub fn add(&mut self, rhs: &UmaFlags)
        requires
            i32::MIN <= old(self).refresh_mind + rhs.refresh_mind <= i32::MAX,
        ensures
            *final(self) == flags_added(*old(self), *rhs),
    {
        self.qiezhe = self.qiezhe || rhs.qiezhe;
        self.aijiao = self.aijiao || rhs.aijiao;
        self.good_trainer = self.good_trainer || rhs.good_trainer;
        self.bad_trainer = self.bad_trainer || rhs.bad_trainer;
        self.positive_thinking = self.positive_thinking || rhs.positive_thinking;
        self.refresh_mind = self.refresh_mind + rhs.refresh_mind;
        self.lucky = self.lucky || rhs.lucky;
        self.doll = self.doll || rhs.doll;
        self.ill = self.ill || rhs.ill;
    }

    /// Loses conditions: each holds if it held and is not lost, and turns are subtracted.
    pub fn remove(&mut self, rhs: &UmaFlags)
        requires
            i32::MIN <= old(self).refresh_mind - rhs.refresh_mind <= i32::MAX,
        ensures
            *final(self) == flags_removed(*old(self), *rhs),
    {
        self.qiezhe = self.qiezhe && !rhs.qiezhe;
        self.aijiao = self.aijiao && !rhs.aijiao;
        self.good_trainer = self.good_trainer && !rhs.good_trainer;
        self.bad_trainer = self.bad_trainer && !rhs.bad_trainer;
        self.positive_thinking = self.positive_thinking && !rhs.positive_thinking;
        self.refresh_mind = self.refresh_mind - rhs.refresh_mind;
        self.lucky = self.lucky && !rhs.lucky;
        self.doll = self.doll && !rhs.doll;
        self.ill = self.ill && !rhs.ill;
    }
}

/// Conditions after gaining others.
pub open spec fn flags_added(a: UmaFlags, b: UmaFlags) -> UmaFlags {
    UmaFlags {
        qiezhe: a.qiezhe || b.qiezhe,
        aijiao: a.aijiao || b.aijiao,
        good_trainer: a.good_trainer || b.good_trainer,
        bad_trainer: a.bad_trainer || b.bad_trainer,
        positive_thinking: a.positive_thinking || b.positive_thinking,
        refresh_mind: (a.refresh_mind + b.refresh_mind) as i32,
        lucky: a.lucky || b.lucky,
        doll: a.doll || b.doll,
        ill: a.ill || b.ill,
    }
}

/// Conditions after losing others.
pub open spec fn flags_removed(a: UmaFlags, b: UmaFlags) -> UmaFlags {
    UmaFlags {
        qiezhe: a.qiezhe && !b.qiezhe,
        aijiao: a.aijiao && !b.aijiao,
        good_trainer: a.good_trainer && !b.good_trainer,
        bad_trainer: a.bad_trainer && !b.bad_trainer,
        positive_thinking: a.positive_thinking && !b.positive_thinking,
        refresh_mind: (a.refresh_mind - b.refresh_mind) as i32,
        lucky: a.lucky && !b.lucky,
        doll: a.doll && !b.doll,
        ill: a.ill && !b.ill,
    }
}

/// Losing conditions that were just gained undoes the gain, where none of them held before.
pub proof fn law_flags_remove_undoes_add(a: UmaFlags, b: UmaFlags)
    requires
        i32::MIN <= a.refresh_mind + b.refresh_mind <= i32::MAX,
        !(a.qiezhe && b.qiezhe),
        !(a.aijiao && b.aijiao),
        !(a.good_trainer && b.good_trainer),
        !(a.bad_trainer && b.bad_trainer),
        !(a.positive_thinking && b.positive_thinking),
        !(a.lucky && b.lucky),
        !(a.doll && b.doll),
        !(a.ill && b.ill),
    ensures
        flags_removed(flags_added(a, b), b) == a,
{
}

/// The character in training.
#[derive(Debug, Clone, Copy, Default)]
pub struct Uma {
    /// Number of the character.
    pub uma_id: u32,
    /// Vitality.
    pub vital: i32,
    /// Largest vitality.
    pub max_vital: i32,
    /// Motivation, from one to five.
    pub motivation: i32,
    /// Status values.
    pub five_status: [i32; 5],
    /// Growth rates.
    pub five_status_bonus: [i32; 5],
    /// Status caps.
    pub five_status_limit: [i32; 5],
    /// Skill points left.
    pub skill_pt: i32,
    /// Score of the learnt skills.
    pub skill_score: i32,
    /// Hint levels.
    pub total_hints: i32,
    /// Race bonus.
    pub race_bonus: i32,
    /// Conditions.
    pub flags: UmaFlags,
    /// Career races; bit `b` stands for turn `b + 11`.
    pub career_races: u64,
    /// Races run; bit `b` stands for turn `b + 11`.
    pub win_races: u64,
}

/// The score in its parts.
#[derive(Debug, Clone, Copy, PartialEq, Eq)]
pub struct ScoreParts {
    /// Learnt skills.
    pub skill: i32,
    /// Skill points.
    pub pt: i32,
    /// Status values.
    pub five_status: [i32; 5],
}

impl ScoreParts {
    /// The seven parts added up.
    pub open spec fn sum(&self) -> int {
        self.skill + self.pt + self.five_status@[0] + self.five_status@[1] + self.five_status@[2]
            + self.five_status@[3] + self.five_status@[4]
    }

    /// The seven parts added up.
    pub fn total(&self) -> (t: i32)
        requires
            i32::MIN <= self.skill + self.pt <= i32::MAX,
            i32::MIN <= self.sum() - self.skill - self.pt <= i32::MAX,
            i32::MIN <= self.five_status@[0] + self.five_status@[1] <= i32::MAX,
            i32::MIN <= self.five_status@[0] + self.five_status@[1] + self.five_status@[2]
                <= i32::MAX,
            i32::MIN <= self.five_status@[0] + self.five_status@[1] + self.five_status@[2]
                + self.five_status@[3] <= i32::MAX,
            i32::MIN <= self.sum() <= i32::MAX,
        ensures
            t == self.sum(),
    {
        let five: i32 = self.five_status[0] + self.five_status[1] + self.five_status[2]
            + self.five_status[3] + self.five_status[4];
        self.skill + self.pt + five
    }
}

/// The smaller of two numbers.
pub open spec fn min_int(a: int, b: int) -> int {
    if a <= b {
        a
    } else {
        b
    }
}

/// A number moved into a range.
pub open spec fn clamp_int(a: int, lo: int, hi: int) -> int {
    if a < lo {
        lo
    } else if a > hi {
        hi
    } else {
        a
    }
}

/// The texts that a status line is made of.
pub struct UmaCells {
    /// Name.
    pub name: String,
    /// Vitality.
    pub vital: String,
    /// Motivation.
    pub motivation: String,
    /// Conditions.
    pub flags: String,
    /// Status values.
    pub status: String,
    /// Skill points.
    pub skill_pt: String,
    /// Hint levels.
    pub hints: String,
    /// Race bonus.
    pub race_bonus: String,
}

/// The status line made of its cells.
pub open spec fn uma_line(c: &UmaCells) -> Seq<char> {
    c.name@ + " 体力 "@ + c.vital@ + " "@ + c.motivation@ + " "@ + c.flags@ + " "@ + c.status@
        + "PT"@ + c.skill_pt@ + " Hint"@ + c.hints@ + " 赛后"@ + c.race_bonus@
}

/// The colour of the vitality: a warning below fifty, an alarm below thirty-five.
pub open spec fn vital_paint(vital: int) -> Paint {
    if vital < 35 {
        Paint::Red
    } else if vital < 50 {
        Paint::Yellow
    } else {
        Paint::BrightGreen
    }
}

/// The cells of the status line, each coloured or not.
pub open spec fn uma_cells_ok(
    u: &Uma,
    name: Seq<char>,
    motivation: Seq<char>,
    status: Seq<char>,
    c: &UmaCells,
) -> bool {
    &&& painted(name, Paint::BrightGreen, c.name@)
    &&& painted(
        dec(u.vital as int) + "/"@ + dec(u.max_vital as int),
        vital_paint(u.vital as int),
        c.vital@,
    )
    &&& painted(motivation, Paint::BrightGreen, c.motivation@)
    &&& exists|f: Seq<char>|
        flags_explained(u.flags, f) && #[trigger] painted(f, Paint::BrightGreen, c.flags@)
    &&& painted(status, Paint::BrightGreen, c.status@)
    &&& painted(dec(u.skill_pt as int), Paint::BrightGreen, c.skill_pt@)
    &&& painted(dec(u.total_hints as int), Paint::BrightGreen, c.hints@)
    &&& painted(dec(u.race_bonus as int), Paint::BrightGreen, c.race_bonus@)
}

/// Puts the status line together.
pub fn uma_line_of(c: &UmaCells) -> (s: String)
    ensures
        s@ == uma_line(c),
{
    let mut s: String = String::new();
    s.append(c.name.as_str());
    s.append(" 体力 ");
    s.append(c.vital.as_str());
    s.append(" ");
    s.append(c.motivation.as_str());
    s.append(" ");
    s.append(c.flags.as_str());
    s.append(" ");
    s.append(c.status.as_str());
    s.append("PT");
    s.append(c.skill_pt.as_str());
    s.append(" Hint");
    s.append(c.hints.as_str());
    s.append(" 赛后");
    s.append(c.race_bonus.as_str());
    assert(s@ =~= uma_line(c));
    s
}

impl Uma {
    /// The number of the character without the costume.
    pub fn chara_id(&self) -> (id: u32)
        ensures
            id == self.uma_id / 100,
    {
        self.uma_id / 100
    }

    /// The status line, given the texts for name, motivation and status values.
    pub fn explain(&self, name: &str, motivation: &str, status: &str) -> (s: String)
        ensures
            exists|c: UmaCells| #[trigger]
                uma_cells_ok(self, name@, motivation@, status@, &c) && s@ == uma_line(&c),
    {
        let mut vital_text: String = String::new();
        append_int(&mut vital_text, self.vital as i64);
        vital_text.append("/");
        append_int(&mut vital_text, self.max_vital as i64);
        assert(vital_text@ =~= dec(self.vital as int) + "/"@ + dec(self.max_vital as int));
        let tone: Paint = if self.vital < 35 {
            Paint::Red
        } else if self.vital < 50 {
            Paint::Yellow
        } else {
            Paint::BrightGreen
        };
        let flags: String = self.flags.explain();
        let cells: UmaCells = UmaCells {
            name: paint(name, Paint::BrightGreen),
            vital: paint(vital_text.as_str(), tone),
            motivation: paint(motivation, Paint::BrightGreen),
            flags: paint(flags.as_str(), Paint::BrightGreen),
            status: paint(status, Paint::BrightGreen),
            skill_pt: paint(crate::text::decimal(self.skill_pt).as_str(), Paint::BrightGreen),
            hints: paint(crate::text::decimal(self.total_hints).as_str(), Paint::BrightGreen),
            race_bonus: paint(crate::text::decimal(self.race_bonus).as_str(), Paint::BrightGreen),
        };
        assert(flags_explained(self.flags, flags@) && painted(
            flags@,
            Paint::BrightGreen,
            cells.flags@,
        ));
        assert(uma_cells_ok(self, name@, motivation@, status@, &cells));
        uma_line_of(&cells)
    }

    /// A character at the start of a career, with the caps of the scenario.
    pub fn new(data: &UmaData, limit_base: [i32; 5]) -> (u: Uma)
        requires
            forall|i: int| 0 <= i < data.races@.len() ==> 11 <= #[trigger] data.races@[i] < 75,
        ensures
            u == (Uma {
                uma_id: data.game_id,
                vital: 100,
                max_vital: 100,
                motivation: 3,
                five_status: data.five_status_initial,
                five_status_bonus: data.five_status_bonus,
                five_status_limit: limit_base,
                skill_pt: 0,
                skill_score: 510,
                total_hints: 21,
                race_bonus: 0,
                flags: no_flags(),
                career_races: u.career_races,
                win_races: 0,
            }),
            forall|turn: int|
                11 <= turn < 75 ==> #[trigger] bit(u.career_races, (turn - 11) as u64)
                    == data.races@.contains(turn as i32),
    {
        Uma {
            uma_id: data.game_id,
            vital: 100,
            max_vital: 100,
            motivation: 3,
            five_status: data.five_status_initial,
            five_status_bonus: data.five_status_bonus,
            five_status_limit: limit_base,
            skill_pt: 0,
            skill_score: 510,
            total_hints: 21,
            race_bonus: 0,
            flags: UmaFlags {
                qiezhe: false,
                aijiao: false,
                good_trainer: false,
                bad_trainer: false,
                positive_thinking: false,
                refresh_mind: 0,
                lucky: false,
                doll: false,
                ill: false,
            },
            career_races: data.zip_races(),
            win_races: 0,
        }
    }

    /// A race is obligatory on this turn: the three finals, and the career races before them.
    pub open spec fn race_turn(&self, turn: int) -> bool {
        if turn == 73 || turn == 75 || turn == 77 {
            true
        } else {
            11 <= turn <= 72 && bit(self.career_races, (turn - 11) as u64)
        }
    }

    /// Whether a race is obligatory on this turn.
    pub fn is_race_turn(&self, turn: i32) -> (b: bool)
        ensures
            b == self.race_turn(turn as int),
    {
        if turn == 73 || turn == 75 || turn == 77 {
            true
        } else if turn < 11 || turn > 72 {
            false
        } else {
            has_bit(self.career_races, (turn - 11) as u64)
        }
    }

    /// Records that a race was run on this turn. Turns without freely chosen races are ignored.
    pub fn set_race(&mut self, turn: i32)
        ensures
            11 <= turn <= 72 ==> (forall|b: u64|
                b < 64 ==> #[trigger] bit(final(self).win_races, b) == (bit(old(self).win_races, b)
                    || b == (turn - 11) as u64)),
            !(11 <= turn <= 72) ==> final(self).win_races == old(self).win_races,
            *final(self) == (Uma { win_races: final(self).win_races, ..*old(self) }),
    {
        if turn < 11 || turn > 72 {
            return;
        }
        self.win_races = with_bit(self.win_races, (turn - 11) as u64);
    }

    /// Skill points including the worth of hint levels, in single precision, rounded down.
    pub open spec fn total_pt_spec(&self, cons: &GameConstants) -> int {
        cons.hint_pt_rate.times_plus_floor(self.total_hints as int, self.skill_pt as int)
    }

    /// Skill points including the worth of hint levels, in single precision, rounded down.
    pub fn total_pt(&self, cons: &GameConstants) -> (pt: i32)
        requires
            cons.hint_pt_rate.wf(),
        ensures
            pt == self.total_pt_spec(cons),
    {
        cons.hint_pt_rate.mul_add_floor(self.total_hints, self.skill_pt)
    }

    /// The parts of the score: learnt skills, skill points at their rate rounded towards zero, and
    /// the table value of each status up to its cap.
    pub open spec fn parts_spec(&self, cons: &GameConstants, p: ScoreParts) -> bool {
        &&& p.skill == self.skill_score
        &&& p.pt == self.pt_score(cons)
        &&& forall|i: int|
            0 <= i < 5 ==> #[trigger] p.five_status@[i] == cons.final_score(
                min_int(self.five_status@[i] as int, self.five_status_limit@[i] as int),
            )
    }

    /// The score in its parts.
    pub fn score_parts(&self, cons: &GameConstants) -> (p: ScoreParts)
        requires
            cons.scores_ready(),
        ensures
            self.parts_spec(cons, p),
            p.sum() == self.score_spec(cons),
    {
        let pt: i32 = cons.pt_score_rate.mul_trunc(self.total_pt(cons));
        let mut five_status: [i32; 5] = [0, 0, 0, 0, 0];
        let mut i: usize = 0;
        while i < 5
            invariant
                i <= 5,
                cons.five_status_final_score@.len() > 0,
                forall|j: int|
                    0 <= j < i ==> #[trigger] five_status@[j] == cons.final_score(
                        min_int(self.five_status@[j] as int, self.five_status_limit@[j] as int),
                    ),
            decreases 5 - i,
        {
            five_status[i] =
            cons.status_final_score(self.five_status[i].min(self.five_status_limit[i]));
            i = i + 1;
        }
        let p: ScoreParts = ScoreParts { skill: self.skill_score, pt, five_status };
        proof {
            law_parts_make_score(self, cons, p);
        }
        p
    }

    /// Applies values: status values up to their caps, motivation within one to five, vitality
    /// within zero and its new largest value.
    pub open spec fn with_value(&self, v: &ActionValue) -> Uma {
        Uma {
            five_status: self.five_status,
            skill_pt: (self.skill_pt + v.status_pt@[5]) as i32,
            motivation: clamp_int(self.motivation + v.motivation, 1, 5) as i32,
            max_vital: (self.max_vital + v.max_vital) as i32,
            vital: ({
                let capped = min_int(self.vital + v.vital, self.max_vital + v.max_vital);
                if capped < 0 {
                    0
                } else {
                    capped
                }
            }) as i32,
            total_hints: (self.total_hints + v.hint_level) as i32,
            ..*self
        }
    }

    /// The status values after applying values.
    pub open spec fn status_after(&self, v: &ActionValue, i: int) -> int {
        min_int(self.five_status@[i] + v.status_pt@[i], self.five_status_limit@[i] as int)
    }

    /// No number leaves the range of machine integers when the values are applied.
    pub open spec fn value_fits(&self, v: &ActionValue) -> bool {
        &&& forall|i: int|
            0 <= i < 5 ==> i32::MIN <= #[trigger] self.five_status@[i] + v.status_pt@[i]
                <= i32::MAX
        &&& i32::MIN <= self.skill_pt + v.status_pt@[5] <= i32::MAX
        &&& i32::MIN <= self.motivation + v.motivation <= i32::MAX
        &&& i32::MIN <= self.max_vital + v.max_vital <= i32::MAX
        &&& i32::MIN <= self.vital + v.vital <= i32::MAX
        &&& i32::MIN <= self.total_hints + v.hint_level <= i32::MAX
    }

    /// The state `after` comes from this one by applying values.
    pub open spec fn value_step(&self, v: &ActionValue, after: Uma) -> bool {
        &&& forall|i: int|
            0 <= i < 5 ==> #[trigger] after.five_status@[i] == self.status_after(v, i)
        &&& after == (Uma { five_status: after.five_status, ..self.with_value(v) })
    }

    /// Applies values of a training or an event.
    pub fn add_value(&mut self, action: &ActionValue)
        requires
            old(self).value_fits(action),
        ensures
            old(self).value_step(action, *final(self)),
    {
        let mut i: usize = 0;
        while i < 5
            invariant
                i <= 5,
                old(self).value_fits(action),
                *self == (Uma { five_status: self.five_status, ..*old(self) }),
                forall|j: int|
                    0 <= j < i ==> #[trigger] self.five_status@[j] == old(self).status_after(
                        action,
                        j,
                    ),
                forall|j: int|
                    i <= j < 5 ==> #[trigger] self.five_status@[j] == old(self).five_status@[j],
            decreases 5 - i,
        {
            assert(i32::MIN <= old(self).five_status@[i as int] + action.status_pt@[i as int]
                <= i32::MAX);
            self.five_status[i] =
            (self.five_status[i] + action.status_pt[i]).min(self.five_status_limit[i]);
            i = i + 1;
        }
        self.skill_pt = self.skill_pt + action.status_pt[5];
        self.motivation = (self.motivation + action.motivation).max(1).min(5);
        self.max_vital = self.max_vital + action.max_vital;
        self.vital = (self.vital + action.vital).min(self.max_vital).max(0);
        self.total_hints = self.total_hints + action.hint_level;
    }

    /// Conditions after an event's outcome: what it adds comes before what it removes.
    pub open spec fn flags_after(&self, choice: &EventChoice) -> UmaFlags {
        let added = match choice.add_flags {
            Some(f) => flags_added(self.flags, f),
            None => self.flags,
        };
        match choice.remove_flags {
            Some(f) => flags_removed(added, f),
            None => added,
        }
    }

    /// The turn counters stay within the range of machine integers.
    pub open spec fn flags_fit(&self, choice: &EventChoice) -> bool {
        let added = match choice.add_flags {
            Some(f) => self.flags.refresh_mind + f.refresh_mind,
            None => self.flags.refresh_mind as int,
        };
        &&& i32::MIN <= added <= i32::MAX
        &&& choice.remove_flags matches Some(f) ==> i32::MIN <= added - f.refresh_mind <= i32::MAX
    }

    /// Applies the conditions of an event's outcome.
    pub fn update_flags(&mut self, choice: &EventChoice)
        requires
            old(self).flags_fit(choice),
        ensures
            *final(self) == (Uma { flags: old(self).flags_after(choice), ..*old(self) }),
    {
        if let Some(flags) = choice.add_flags {
            self.flags.add(&flags);
        }
        if let Some(flags) = choice.remove_flags {
            self.flags.remove(&flags);
        }
    }

    /// Score of the skill points, in single precision, rounded towards zero.
    pub open spec fn pt_score(&self, cons: &GameConstants) -> int {
        cons.pt_score_rate.times_trunc(self.total_pt_spec(cons))
    }

    /// The score: learnt skills, skill points and status values.
    pub open spec fn score_spec(&self, cons: &GameConstants) -> int {
        self.skill_score + self.pt_score(cons) + self.status_score(cons, 5)
    }

    /// The score and its partial sums are machine integers.
    pub open spec fn score_fits(&self, cons: &GameConstants) -> bool {
        &&& i32::MIN <= self.skill_score + self.pt_score(cons) <= i32::MAX
        &&& forall|n: int|
            0 <= n <= 5 ==> i32::MIN <= #[trigger] self.status_score(cons, n) <= i32::MAX
        &&& i32::MIN <= self.score_spec(cons) <= i32::MAX
    }

    /// The score: its seven parts added up.
    pub fn calc_score(&self, cons: &GameConstants) -> (score: i32)
        requires
            cons.scores_ready(),
            self.score_fits(cons),
        ensures
            score == self.score_spec(cons),
    {
        let p: ScoreParts = self.score_parts(cons);
        proof {
            law_parts_make_score(self, cons, p);
        }
        p.total()
    }

    /// Skills and skill points, before their weight is applied.
    pub open spec fn favor_skills(&self, cons: &GameConstants) -> int {
        self.skill_score + cons.pt_score_rate.times_trunc(self.skill_pt as int)
    }

    /// Skills and skill points at their weight.
    pub open spec fn favor_weighted(&self, cons: &GameConstants) -> int {
        cons.pt_favor_rate.times_trunc(self.favor_skills(cons))
    }

    /// The score that favours skill points: skills and skill points at their weight, the status
    /// values, and a factor that brings the sum back to the scale of the plain score.
    pub open spec fn pt_favor_spec(&self, cons: &GameConstants) -> int {
        scaled_score(self.favor_weighted(cons) + self.status_score(cons, 5))
    }

    /// Table values of the first `n` status values added up.
    pub open spec fn status_score(&self, cons: &GameConstants, n: int) -> int
        decreases n,
    {
        if n <= 0 {
            0
        } else {
            self.status_score(cons, n - 1) + cons.final_score(
                min_int(self.five_status@[n - 1] as int, self.five_status_limit@[n - 1] as int),
            )
        }
    }

    /// The score that favours skill points.
    pub fn calc_score_with_pt_favor(&self, cons: &GameConstants) -> (score: i32)
        requires
            cons.scores_ready(),
            i32::MIN <= self.favor_skills(cons) <= i32::MAX,
            forall|n: int|
                0 <= n <= 5 ==> i32::MIN <= self.favor_weighted(cons)
                    + #[trigger] self.status_score(cons, n) <= i32::MAX,
        ensures
            score == self.pt_favor_spec(cons),
    {
        let skills: i32 = self.skill_score + cons.pt_score_rate.mul_trunc(self.skill_pt);
        let weighted: i32 = cons.pt_favor_rate.mul_trunc(skills);
        assert(weighted == self.favor_weighted(cons));
        let mut score: i32 = weighted;
        let mut i: usize = 0;
        while i < 5
            invariant
                i <= 5,
                cons.five_status_final_score@.len() > 0,
                weighted == self.favor_weighted(cons),
                forall|n: int|
                    0 <= n <= 5 ==> i32::MIN <= self.favor_weighted(cons)
                        + #[trigger] self.status_score(cons, n) <= i32::MAX,
                score == weighted + self.status_score(cons, i as int),
            decreases 5 - i,
        {
            let add: i32 = cons.status_final_score(
                self.five_status[i].min(self.five_status_limit[i]),
            );
            assert(i32::MIN <= self.favor_weighted(cons) + self.status_score(cons, i as int + 1)
                <= i32::MAX);
            score = score + add;
            i = i + 1;
        }
        scale_score(score)
    }

    /// What is known of the character. Refused for an unknown number.
    pub fn get_data<'a>(&self, data: &'a GameData) -> (r: Result<&'a UmaData, SimError>)
        ensures
            match r {
                Ok(d) => data.uma@.dom().contains(self.uma_id) && *d == data.uma@[self.uma_id],
                Err(e) => !data.uma@.dom().contains(self.uma_id) && e == (SimError::UnknownUma {
                    uma_id: self.uma_id,
                }),
            },
    {
        data.get_uma(self.uma_id)
    }

    /// Races run in a span of turns.
    pub fn count_free_race(&self, free: &FreeRaceData) -> (n: u32)
        ensures
            n == races_between(self.win_races, free.mask, 64),
    {
        let mut n: u32 = 0;
        let mut b: u64 = 0;
        while b < 64
            invariant
                b <= 64,
                n == races_between(self.win_races, free.mask, b as int),
                n <= b,
            decreases 64 - b,
        {
            if has_bit(self.win_races, b) && has_bit(free.mask, b) {
                n = n + 1;
            }
            b = b + 1;
        }
        n
    }

    /// Whether every span of freely chosen races has its races.
    pub fn all_free_races_done(&self, data: &UmaData) -> (done: bool)
        ensures
            done == (forall|i: int|
                0 <= i < data.free_races@.len() ==> races_between(
                    self.win_races,
                    (#[trigger] data.free_races@[i]).mask,
                    64,
                ) >= data.free_races@[i].count),
    {
        let mut i: usize = 0;
        while i < data.free_races.len()
            invariant
                i <= data.free_races@.len(),
                forall|j: int|
                    0 <= j < i ==> races_between(
                        self.win_races,
                        (#[trigger] data.free_races@[j]).mask,
                        64,
                    ) >= data.free_races@[j].count,
            decreases data.free_races@.len() - i,
        {
            if self.count_free_race(&data.free_races[i]) < data.free_races[i].count {
                return false;
            }
            i = i + 1;
        }
        true
    }

    /// The first span of freely chosen races that holds a turn.
    pub fn find_free_race<'a>(&self, data: &'a UmaData, turn: i32) -> (r: Option<&'a FreeRaceData>)
        ensures
            r matches Some(f) ==> span_at(data.free_races@, turn as u32) == Some(*f),
            r is None ==> span_at(data.free_races@, turn as u32) is None,
    {
        let mut i: usize = 0;
        assert(data.free_races@.skip(0) =~= data.free_races@);
        while i < data.free_races.len()
            invariant
                i <= data.free_races@.len(),
                span_at(data.free_races@, turn as u32) == span_at(
                    data.free_races@.skip(i as int),
                    turn as u32,
                ),
            decreases data.free_races@.len() - i,
        {
            let f: &FreeRaceData = &data.free_races[i];
            if f.start_turn <= turn as u32 && f.end_turn >= turn as u32 {
                return Some(f);
            }
            assert(data.free_races@.skip(i as int).skip(1) =~= data.free_races@.skip(i as int + 1));
            i = i + 1;
        }
        None
    }

    /// Turns on which a race was run, in ascending order.
    pub fn list_races(&self) -> (turns: Vec<i32>)
        ensures
            turns@ == race_turns(self.win_races, 63),
    {
        let mut turns: Vec<i32> = Vec::new();
        let mut b: u64 = 0;
        while b < 63
            invariant
                b <= 63,
                turns@ == race_turns(self.win_races, b as int),
            decreases 63 - b,
        {
            if has_bit(self.win_races, b) {
                turns.push(b as i32 + 11);
            }
            b = b + 1;
        }
        turns
    }
}

/// A turn lies in a span.
pub open spec fn in_span(f: &FreeRaceData, turn: u32) -> bool {
    f.start_turn <= turn <= f.end_turn
}

/// The first span that holds a turn.
pub open spec fn span_at(spans: Seq<FreeRaceData>, turn: u32) -> Option<FreeRaceData>
    decreases spans.len(),
{
    if spans.len() == 0 {
        None
    } else if in_span(&spans[0], turn) {
        Some(spans[0])
    } else {
        span_at(spans.skip(1), turn)
    }
}

/// No condition holds.
pub open spec fn no_flags() -> UmaFlags {
    UmaFlags {
        qiezhe: false,
        aijiao: false,
        good_trainer: false,
        bad_trainer: false,
        positive_thinking: false,
        refresh_mind: 0,
        lucky: false,
        doll: false,
        ill: false,
    }
}

/// Bits below `n` that are set in both masks.
pub open spec fn races_between(a: u64, b: u64, n: int) -> int
    decreases n,
{
    if n <= 0 {
        0
    } else {
        races_between(a, b, n - 1) + if bit(a, (n - 1) as u64) && bit(b, (n - 1) as u64) {
            1int
        } else {
            0
        }
    }
}

/// The turns of the set bits below `n`, in ascending order.
pub open spec fn race_turns(mask: u64, n: int) -> Seq<i32>
    decreases n,
{
    if n <= 0 {
        Seq::empty()
    } else if bit(mask, (n - 1) as u64) {
        race_turns(mask, n - 1).push((n - 1 + 11) as i32)
    } else {
        race_turns(mask, n - 1)
    }
}

/// The seven parts of the score add up to the score.
pub proof fn law_parts_make_score(u: &Uma, cons: &GameConstants, p: ScoreParts)
    requires
        u.parts_spec(cons, p),
    ensures
        p.sum() == u.score_spec(cons),
        u.status_score(cons, 1) == p.five_status@[0],
        u.status_score(cons, 2) == p.five_status@[0] + p.five_status@[1],
        u.status_score(cons, 3) == p.five_status@[0] + p.five_status@[1] + p.five_status@[2],
        u.status_score(cons, 4) == p.five_status@[0] + p.five_status@[1] + p.five_status@[2]
            + p.five_status@[3],
{
    reveal_with_fuel(Uma::status_score, 6);
    assert(p.five_status@[0] == cons.final_score(
        min_int(u.five_status@[0] as int, u.five_status_limit@[0] as int),
    ));
    assert(p.five_status@[1] == cons.final_score(
        min_int(u.five_status@[1] as int, u.five_status_limit@[1] as int),
    ));
    assert(p.five_status@[2] == cons.final_score(
        min_int(u.five_status@[2] as int, u.five_status_limit@[2] as int),
    ));
    assert(p.five_status@[3] == cons.final_score(
        min_int(u.five_status@[3] as int, u.five_status_limit@[3] as int),
    ));
    assert(p.five_status@[4] == cons.final_score(
        min_int(u.five_status@[4] as int, u.five_status_limit@[4] as int),
    ));
}

/// What a status value exceeds its cap by, and what it is below zero, does not count: characters
/// that differ in nothing else have the same parts of the score. The parts add up to the score, and
/// the skills count as they are.
pub proof fn law_excess_status_does_not_count(
    u: &Uma,
    v: &Uma,
    cons: &GameConstants,
    p: ScoreParts,
    q: ScoreParts,
)
    requires
        *v == (Uma { five_status: v.five_status, ..*u }),
        forall|i: int|
            0 <= i < 5 ==> counted(u, i) == #[trigger] counted(v, i),
        u.parts_spec(cons, p),
        v.parts_spec(cons, q),
    ensures
        p == q,
        p.sum() == u.score_spec(cons),
        u.score_spec(cons) == v.score_spec(cons),
        p.skill == u.skill_score,
{
    law_parts_make_score(u, cons, p);
    law_parts_make_score(v, cons, q);
    assert forall|i: int| 0 <= i < 5 implies #[trigger] p.five_status@[i] == q.five_status@[i] by {
        assert(counted(u, i) == counted(v, i));
        assert(q.five_status@[i] == cons.final_score(
            min_int(v.five_status@[i] as int, v.five_status_limit@[i] as int),
        ));
    }
    assert(p.five_status@ =~= q.five_status@);
    assert(p.five_status =~= q.five_status);
}

/// A status value as it counts for the score: up to its cap, and not below zero.
pub open spec fn counted(u: &Uma, i: int) -> int {
    let capped = min_int(u.five_status@[i] as int, u.five_status_limit@[i] as int);
    if capped < 0 {
        0
    } else {
        capped
    }
}

/// Recording a race makes its turn, and no other, appear among the races run.
pub proof fn law_recorded_race_is_listed(before: u64, after: u64, turn: int, other: int)
    requires
        11 <= turn <= 72,
        11 <= other <= 73,
        forall|b: u64|
            b < 64 ==> #[trigger] bit(after, b) == (bit(before, b) || b == (turn - 11) as u64),
    ensures
        race_turns(after, 63).contains(other as i32) <==> (race_turns(before, 63).contains(
            other as i32,
        ) || other == turn),
{
    lemma_race_turns(before, 63, other);
    lemma_race_turns(after, 63, other);
    assert(bit(after, (other - 11) as u64) == (bit(before, (other - 11) as u64) || (other - 11) as u64
        == (turn - 11) as u64));
}

proof fn lemma_race_turns(mask: u64, n: int, turn: int)
    requires
        0 <= n <= 63,
        11 <= turn <= 73,
    ensures
        race_turns(mask, n).contains(turn as i32) <==> turn - 11 < n && bit(
            mask,
            (turn - 11) as u64,
        ),
    decreases n,
{
    if n > 0 {
        lemma_race_turns(mask, n - 1, turn);
        let pre = race_turns(mask, n - 1);
        if bit(mask, (n - 1) as u64) {
            let next = pre.push((n - 1 + 11) as i32);
            if pre.contains(turn as i32) {
                let k = choose|k: int| 0 <= k < pre.len() && pre[k] == turn as i32;
                assert(next[k] == turn as i32);
            }
            if turn - 11 == n - 1 {
                assert(next[pre.len() as int] == turn as i32);
            }
            if next.contains(turn as i32) && turn - 11 != n - 1 {
                let k = choose|k: int| 0 <= k < next.len() && next[k] == turn as i32;
                assert(pre[k] == turn as i32);
            }
        }
    }
}

/// Applying values never leaves vitality or motivation outside their ranges, nor a status value
/// above its cap.
pub proof fn law_values_stay_in_range(before: Uma, v: ActionValue, after: Uma)
    requires
        before.value_fits(&v),
        before.value_step(&v, after),
    ensures
        1 <= after.motivation <= 5,
        0 <= after.vital,
        after.max_vital >= 0 ==> after.vital <= after.max_vital,
        forall|i: int|
            0 <= i < 5 ==> #[trigger] after.five_status@[i] <= before.five_status_limit@[i],
{
    assert forall|i: int| 0 <= i < 5 implies #[trigger] after.five_status@[i]
        <= before.five_status_limit@[i] by {
        assert(after.five_status@[i] == before.status_after(&v, i));
    }
}

/// Races run in a span go up by one when a race is run on a turn that counts for the span and had
/// none before, and stay as they are for any other race; who has run no race has none to count.
pub proof fn law_each_race_counts_once(before: u64, after: u64, mask: u64, turn: int)
    requires
        11 <= turn <= 74,
        forall|b: u64|
            b < 64 ==> (#[trigger] (after >> b) & 1 == 1) == ((before >> b) & 1 == 1 || b == turn - 11),
    ensures
        races_between(after, mask, 64) == races_between(before, mask, 64) + if (before >> ((turn
            - 11) as u64)) & 1 != 1 && (mask >> ((turn - 11) as u64)) & 1 == 1 {
            1int
        } else {
            0
        },
        races_between(0, mask, 64) == 0,
        0 <= races_between(before, mask, 64) <= 64,
{
    assert forall|b: u64| b < 64 implies #[trigger] bit(after, b) == (bit(before, b) || b == turn
        - 11) by {
        assert(((after >> b) & 1 == 1) == ((before >> b) & 1 == 1 || b == turn - 11));
    }
    lemma_one_more_race(before, after, mask, turn, 64);
    lemma_no_race(mask, 64);
}

proof fn lemma_one_more_race(before: u64, after: u64, mask: u64, turn: int, n: int)
    requires
        11 <= turn <= 74,
        0 <= n <= 64,
        forall|b: u64|
            b < 64 ==> #[trigger] bit(after, b) == (bit(before, b) || b == turn - 11),
    ensures
        races_between(after, mask, n) == races_between(before, mask, n) + if turn - 11 < n && !bit(
            before,
            (turn - 11) as u64,
        ) && bit(mask, (turn - 11) as u64) {
            1int
        } else {
            0
        },
        0 <= races_between(before, mask, n) <= n,
    decreases n,
{
    if n > 0 {
        lemma_one_more_race(before, after, mask, turn, n - 1);
        assert(bit(after, (n - 1) as u64) == (bit(before, (n - 1) as u64) || n - 1 == turn - 11));
    }
}

proof fn lemma_no_race(mask: u64, n: int)
    requires
        0 <= n <= 64,
    ensures
        races_between(0, mask, n) == 0,
    decreases n,
{
    if n > 0 {
        let b = (n - 1) as u64;
        assert((0u64 >> b) & 1 == 0) by (bit_vector);
        lemma_no_race(mask, n - 1);
    }
}

/// Applied values arrive on the character: each status value is the sum, held at its cap; skill
/// points, hint levels and the largest vitality are sums; vitality stays within zero and its largest
/// value and motivation within one and five; nothing else changes.
pub proof fn law_values_arrive(before: Uma, v: ActionValue, after: Uma, i: int)
    requires
        0 <= i < 5,
        before.value_fits(&v),
        before.value_step(&v, after),
    ensures
        before.five_status@[i] + v.status_pt@[i] <= before.five_status_limit@[i]
            ==> after.five_status@[i] == before.five_status@[i] + v.status_pt@[i],
        before.five_status@[i] + v.status_pt@[i] > before.five_status_limit@[i]
            ==> after.five_status@[i] == before.five_status_limit@[i],
        after.skill_pt == before.skill_pt + v.status_pt@[5],
        after.total_hints == before.total_hints + v.hint_level,
        after.max_vital == before.max_vital + v.max_vital,
        0 <= before.vital + v.vital <= after.max_vital ==> after.vital == before.vital + v.vital,
        before.vital + v.vital < 0 ==> after.vital == 0,
        0 <= after.max_vital < before.vital + v.vital ==> after.vital == after.max_vital,
        1 <= before.motivation + v.motivation <= 5 ==> after.motivation == before.motivation
            + v.motivation,
        before.motivation + v.motivation < 1 ==> after.motivation == 1,
        before.motivation + v.motivation > 5 ==> after.motivation == 5,
        after.flags == before.flags,
        after.five_status_limit == before.five_status_limit,
        after.five_status_bonus == before.five_status_bonus,
        after.career_races == before.career_races,
        after.win_races == before.win_races,
        after.skill_score == before.skill_score,
        after.race_bonus == before.race_bonus,
{
    assert(after.five_status@[i] == before.status_after(&v, i));
}

/// Two gains one after the other come to their sum, a status value held at its cap.
pub proof fn law_values_compose(u: Uma, v: ActionValue, w: ActionValue, mid: Uma, after: Uma, i: int)
    requires
        0 <= i < 5,
        u.value_fits(&v),
        u.value_step(&v, mid),
        mid.value_fits(&w),
        mid.value_step(&w, after),
        v.status_pt@[i] >= 0,
        w.status_pt@[i] >= 0,
        u.five_status@[i] <= u.five_status_limit@[i],
    ensures
        after.five_status@[i] == if u.five_status@[i] + v.status_pt@[i] + w.status_pt@[i]
            < u.five_status_limit@[i] {
            u.five_status@[i] + v.status_pt@[i] + w.status_pt@[i]
        } else {
            u.five_status_limit@[i] as int
        },
        after.skill_pt == u.skill_pt + v.status_pt@[5] + w.status_pt@[5],
{
    assert(mid.five_status@[i] == u.status_after(&v, i));
    assert(after.five_status@[i] == mid.status_after(&w, i));
}

/// The finals on turns seventy-three, seventy-five and seventy-seven are obligatory for everyone,
/// the races of the career on their own turns up to seventy-two, and nothing else is.
pub proof fn law_obligatory_races(u: Uma, turn: int)
    ensures
        u.race_turn(73) && u.race_turn(75) && u.race_turn(77),
        11 <= turn <= 72 ==> u.race_turn(turn) == ((u.career_races >> ((turn - 11) as u64)) & 1 == 1),
        turn < 11 || turn > 77 || turn == 74 || turn == 76 ==> !u.race_turn(turn),
{
}

/// What an outcome adds and what it removes: a condition that is removed is gone, even if it was
/// added too; one that is only added holds; any other stays as it was.
pub proof fn law_removal_wins_over_gain(u: Uma, choice: EventChoice, gain: UmaFlags, loss: UmaFlags)
    requires
        u.flags_fit(&choice),
        choice.add_flags == Some(gain),
        choice.remove_flags == Some(loss),
    ensures
        ({
            let f = u.flags_after(&choice);
            &&& f.ill == ((u.flags.ill || gain.ill) && !loss.ill)
            &&& f.qiezhe == ((u.flags.qiezhe || gain.qiezhe) && !loss.qiezhe)
            &&& f.aijiao == ((u.flags.aijiao || gain.aijiao) && !loss.aijiao)
            &&& f.good_trainer == ((u.flags.good_trainer || gain.good_trainer)
                && !loss.good_trainer)
            &&& f.bad_trainer == ((u.flags.bad_trainer || gain.bad_trainer) && !loss.bad_trainer)
            &&& f.positive_thinking == ((u.flags.positive_thinking || gain.positive_thinking)
                && !loss.positive_thinking)
            &&& f.lucky == ((u.flags.lucky || gain.lucky) && !loss.lucky)
            &&& f.doll == ((u.flags.doll || gain.doll) && !loss.doll)
            &&& f.refresh_mind == u.flags.refresh_mind + gain.refresh_mind - loss.refresh_mind
        }),
{
}

/// An outcome that touches no condition leaves them all as they were, and one that only adds keeps
/// every condition that held.
pub proof fn law_gain_keeps_conditions(u: Uma, choice: EventChoice)
    requires
        u.flags_fit(&choice),
        choice.remove_flags is None,
    ensures
        choice.add_flags is None ==> u.flags_after(&choice) == u.flags,
        choice.add_flags matches Some(gain) ==> {
            let f = u.flags_after(&choice);
            &&& f.ill == (u.flags.ill || gain.ill)
            &&& f.qiezhe == (u.flags.qiezhe || gain.qiezhe)
            &&& f.aijiao == (u.flags.aijiao || gain.aijiao)
            &&& f.good_trainer == (u.flags.good_trainer || gain.good_trainer)
            &&& f.bad_trainer == (u.flags.bad_trainer || gain.bad_trainer)
            &&& f.positive_thinking == (u.flags.positive_thinking || gain.positive_thinking)
            &&& f.lucky == (u.flags.lucky || gain.lucky)
            &&& f.doll == (u.flags.doll || gain.doll)
            &&& f.refresh_mind == u.flags.refresh_mind + gain.refresh_mind
        },
{
}

/// The score is what the learnt skills, the skill points and the five entries of the table for the
/// status values come to, each status value read at its cap at most.
pub proof fn law_score_reads_the_table(u: Uma, cons: &GameConstants)
    requires
        cons.five_status_final_score@.len() > 0,
        forall|i: int|
            0 <= i < 5 ==> 0 <= #[trigger] u.five_status@[i] && 0 <= u.five_status_limit@[i]
                < cons.five_status_final_score@.len(),
    ensures
        ({
            let table = cons.five_status_final_score@;
            let at = |i: int|
                if u.five_status@[i] <= u.five_status_limit@[i] {
                    u.five_status@[i] as int
                } else {
                    u.five_status_limit@[i] as int
                };
            u.score_spec(cons) - u.pt_score(cons) == u.skill_score + table[at(0)] + table[at(1)]
                + table[at(2)] + table[at(3)] + table[at(4)]
        }),
{
    reveal_with_fuel(Uma::status_score, 6);
    assert(u.five_status@[0] >= 0 && u.five_status@[1] >= 0 && u.five_status@[2] >= 0
        && u.five_status@[3] >= 0 && u.five_status@[4] >= 0);
}

/// The first span that holds a turn is found: it holds the turn, it is one of the list, and no span
/// before it does; nothing is found exactly where no span holds the turn.
pub proof fn law_first_span_is_found(spans: Seq<FreeRaceData>, turn: u32)
    ensures
        span_at(spans, turn) matches Some(f) ==> exists|i: int|
            0 <= i < spans.len() && #[trigger] spans[i] == f && f.start_turn <= turn <= f.end_turn
                && forall|j: int|
                0 <= j < i ==> !((#[trigger] spans[j]).start_turn <= turn <= spans[j].end_turn),
        span_at(spans, turn) is None <==> forall|j: int|
            0 <= j < spans.len() ==> !((#[trigger] spans[j]).start_turn <= turn
                <= spans[j].end_turn),
    decreases spans.len(),
{
    if spans.len() > 0 {
        if in_span(&spans[0], turn) {
            assert(spans[0] == span_at(spans, turn)->0);
        } else {
            let rest = spans.skip(1);
            law_first_span_is_found(rest, turn);
            if let Some(f) = span_at(rest, turn) {
                let i = choose|i: int|
                    0 <= i < rest.len() && #[trigger] rest[i] == f && f.start_turn <= turn
                        <= f.end_turn && forall|j: int|
                        0 <= j < i ==> !((#[trigger] rest[j]).start_turn <= turn
                            <= rest[j].end_turn);
                assert(spans[i + 1] == f);
                assert forall|j: int| 0 <= j < i + 1 implies !((#[trigger] spans[j]).start_turn
                    <= turn <= spans[j].end_turn) by {
                    if j > 0 {
                        assert(rest[j - 1] == spans[j]);
                    }
                }
            } else {
                assert forall|j: int| 0 <= j < spans.len() implies !((
                #[trigger] spans[j]).start_turn <= turn <= spans[j].end_turn) by {
                    if j > 0 {
                        assert(rest[j - 1] == spans[j]);
                    }
                }
            }
        }
    }
}

/// With whole rates and numbers that are exact in single precision, the score is the learnt skills, the
/// skill points with the worth of the hint levels at their rate, and the table's five entries.
pub proof fn law_score_with_whole_rates(u: Uma, cons: &GameConstants)
    requires
        cons.scores_ready(),
        cons.hint_pt_rate.places == 0,
        cons.pt_score_rate.places == 0,
        ({
            let worth = u.total_hints * cons.hint_pt_rate.significand;
            let points = u.skill_pt + worth;
            &&& -16_777_216 < u.total_hints < 16_777_216
            &&& -16_777_216 < worth < 16_777_216
            &&& -16_777_216 < u.skill_pt < 16_777_216
            &&& -16_777_216 < points < 16_777_216
            &&& -16_777_216 < points * cons.pt_score_rate.significand < 16_777_216
        }),
    ensures
        u.total_pt_spec(cons) == u.skill_pt + u.total_hints * cons.hint_pt_rate.significand,
        u.score_spec(cons) - u.status_score(cons, 5) == u.skill_score + (u.skill_pt + u.total_hints
            * cons.hint_pt_rate.significand) * cons.pt_score_rate.significand,
{
    let worth = u.total_hints * cons.hint_pt_rate.significand;
    let points = u.skill_pt + worth;
    law_whole_rates_add_exactly(cons.hint_pt_rate, u.total_hints as int, u.skill_pt as int);
    law_whole_rates_multiply_exactly(cons.pt_score_rate, points);
}

/// The score that favours skill points weighs skills and skill points, adds the table's entries, and
/// takes thirty-seven hundredths of the sum; hint levels do not count there.
pub proof fn law_favoured_score_with_whole_rates(u: Uma, cons: &GameConstants)
    requires
        cons.scores_ready(),
        cons.pt_score_rate.places == 0,
        cons.pt_favor_rate.places == 0,
        ({
            let points = u.skill_pt * cons.pt_score_rate.significand;
            let skills = u.skill_score + points;
            let sum = skills * cons.pt_favor_rate.significand + u.status_score(cons, 5);
            &&& -16_777_216 < u.skill_pt < 16_777_216
            &&& -16_777_216 < points < 16_777_216
            &&& -16_777_216 < skills < 16_777_216
            &&& -16_777_216 < skills * cons.pt_favor_rate.significand < 16_777_216
            &&& 0 <= sum <= 0x7fff_ffff
        }),
    ensures
        ({
            let skills = u.skill_score + u.skill_pt * cons.pt_score_rate.significand;
            let sum = skills * cons.pt_favor_rate.significand + u.status_score(cons, 5);
            100 * u.pt_favor_spec(cons) <= 37 * sum < 100 * u.pt_favor_spec(cons) + 101
        }),
{
    let skills = u.skill_score + u.skill_pt * cons.pt_score_rate.significand;
    law_whole_rates_multiply_exactly(cons.pt_score_rate, u.skill_pt as int);
    law_whole_rates_multiply_exactly(cons.pt_favor_rate, skills);
    law_score_scale(skills * cons.pt_favor_rate.significand + u.status_score(cons, 5));
}

/// A career starts without conditions.
pub proof fn law_nobody_starts_with_conditions()
    ensures
        !no_flags().ill && !no_flags().qiezhe && !no_flags().aijiao && !no_flags().good_trainer
            && !no_flags().bad_trainer && !no_flags().positive_thinking && !no_flags().lucky
            && !no_flags().doll && no_flags().refresh_mind == 0,
{
}

/// Races run are listed by their turns in ascending order, each once.
pub proof fn law_races_listed_in_order(mask: u64, n: int, i: int, j: int)
    requires
        0 <= n <= 63,
        0 <= i < j < race_turns(mask, n).len(),
    ensures
        race_turns(mask, n)[i] < race_turns(mask, n)[j],
        11 <= race_turns(mask, n)[i],
        race_turns(mask, n)[j] <= n + 10,
    decreases n,
{
    if n > 0 {
        lemma_listed_turns(mask, n - 1);
        if bit(mask, (n - 1) as u64) {
            if j < race_turns(mask, n - 1).len() {
                law_races_listed_in_order(mask, n - 1, i, j);
            }
        } else {
            law_races_listed_in_order(mask, n - 1, i, j);
        }
    }
}

proof fn lemma_listed_turns(mask: u64, n: int)
    requires
        0 <= n <= 63,
    ensures
        forall|k: int|
            0 <= k < race_turns(mask, n).len() ==> 11 <= #[trigger] race_turns(mask, n)[k] <= n + 10,
    decreases n,
{
    if n > 0 {
        lemma_listed_turns(mask, n - 1);
        let pre = race_turns(mask, n - 1);
        let all = race_turns(mask, n);
        assert forall|k: int| 0 <= k < all.len() implies 11 <= #[trigger] all[k] <= n + 10 by {
            if k < pre.len() {
                assert(all[k] == pre[k]);
            }
        }
    }
}

/// The vitality alarms below thirty-five, warns below fifty, and is calm from there on.
pub proof fn law_colours_of_vitality(vital: int)
    ensures
        vital_paint(vital) == Paint::Red <==> vital < 35,
        vital_paint(vital) == Paint::Yellow <==> 35 <= vital < 50,
        vital_paint(vital) == Paint::BrightGreen <==> vital >= 50,
{
}

/// The line of conditions is empty where none holds, and names each that does.
pub proof fn law_conditions_are_named(q: Seq<char>, n: i32)
    ensures
        flags_text(no_flags(), q) =~= Seq::<char>::empty(),
        flags_text((UmaFlags { qiezhe: true, ..no_flags() }), q) =~= q,
        flags_text((UmaFlags { aijiao: true, ..no_flags() }), q) =~= "爱娇 "@,
        flags_text((UmaFlags { good_trainer: true, ..no_flags() }), q) =~= "擅长训练 "@,
        flags_text((UmaFlags { bad_trainer: true, ..no_flags() }), q) =~= "不擅长训练 "@,
        flags_text((UmaFlags { positive_thinking: true, ..no_flags() }), q) =~= "正向思考 "@,
        flags_text((UmaFlags { lucky: true, ..no_flags() }), q) =~= "幸运体质 "@,
        flags_text((UmaFlags { doll: true, ..no_flags() }), q) =~= "抓过娃娃 "@,
        flags_text((UmaFlags { ill: true, ..no_flags() }), q) =~= "*生病 "@,
        n > 0 ==> flags_text((UmaFlags { refresh_mind: n, ..no_flags() }), q) =~= "休息心得("@ + dec(
            n as int,
        ) + "回合)"@,
        n <= 0 ==> flags_text((UmaFlags { refresh_mind: n, ..no_flags() }), q).len() == 0,
{
}

} // verus!
