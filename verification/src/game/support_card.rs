use std::collections::HashMap;
use vstd::prelude::*;
use crate::error::SimError;
use crate::gamedata::support_card::{card_short_name, CardValue, SupportCardData};
use crate::text::{append_if, append_int, dec, word_if};

verus! {

/// Percentages that apply one after the other, each multiplying what the earlier ones left, in
/// hundredths of a percent.
///
/// A rise of `p` turns a factor `f` into `f * (1 + p)`, a drop of `p` into `f * (1 - p)`.
#[derive(Debug, Clone, Default)]
pub struct Stack {
    pub parts: Vec<i32>,
}

/// What a support card contributes to a training.
#[derive(Debug, Clone, Default)]
pub struct CardTrainingEffect {
    /// Friendship bonus.
    pub youqing: Stack,
    /// Motivation bonus.
    pub ganjing: i32,
    /// Training bonus.
    pub xunlian: i32,
    /// Race bonus.
    pub saihou: i32,
    /// Speciality rate.
    pub deyilv: Stack,
    /// Status bonus by attribute, skill points last.
    pub bonus: [i32; 6],
    /// Vitality restored by wisdom training.
    pub wiz_vital_bonus: i32,
    /// Drop of the failure rate.
    pub fail_rate_drop: Stack,
    /// Drop of the vitality cost.
    pub vital_cost_drop: Stack,
    /// Rise of event effects.
    pub event_effect_up: i32,
    /// Rise of event recovery.
    pub event_recovery_amount_up: i32,
    /// Additional hints.
    pub hint_count_bonus: i32,
}

/// The same contribution as mathematical values.
pub struct EffectView {
    pub youqing: Seq<int>,
    pub ganjing: int,
    pub xunlian: int,
    pub saihou: int,
    pub deyilv: Seq<int>,
    pub bonus: Seq<int>,
    pub wiz_vital_bonus: int,
    pub fail_rate_drop: Seq<int>,
    pub vital_cost_drop: Seq<int>,
    pub event_effect_up: int,
    pub event_recovery_amount_up: int,
    pub hint_count_bonus: int,
}

impl Stack {
    /// The percentages in the order in which they apply.
    pub open spec fn view(&self) -> Seq<int> {
        Seq::new(self.parts@.len(), |i: int| self.parts@[i] as int)
    }

    /// A stack of one percentage.
    fn of(part: i32) -> (s: Stack)
        ensures
            s.view() == seq![part as int],
    {
        let mut parts: Vec<i32> = Vec::new();
        parts.push(part);
        let s: Stack = Stack { parts };
        assert(s.view() =~= seq![part as int]);
        s
    }

    /// Puts one more percentage on the stack.
    fn push(&mut self, part: i32)
        ensures
            final(self).view() == old(self).view().push(part as int),
    {
        let ghost before = self.view();
        self.parts.push(part);
        assert(self.view() =~= before.push(part as int));
    }

    /// The percentages of two stacks, this one's first.
    fn concat(&self, other: &Stack) -> (s: Stack)
        ensures
            s.view() == self.view() + other.view(),
    {
        let mut parts: Vec<i32> = self.parts.clone();
        let mut i: usize = 0;
        assert(parts@ =~= self.parts@ + other.parts@.take(0));
        while i < other.parts.len()
            invariant
                i <= other.parts@.len(),
                parts@ == self.parts@ + other.parts@.take(i as int),
            decreases other.parts@.len() - i,
        {
            parts.push(other.parts[i]);
            i = i + 1;
            assert(parts@ =~= self.parts@ + other.parts@.take(i as int));
        }
        let s: Stack = Stack { parts };
        assert(s.view() =~= self.view() + other.view());
        s
    }

    /// An equal stack.
    pub fn copy(&self) -> (s: Stack)
        ensures
            s.view() == self.view(),
    {
        let s: Stack = Stack { parts: self.parts.clone() };
        assert(s.view() =~= self.view());
        s
    }
}

/// The integers of an array of six.
pub open spec fn ints6(a: [i32; 6]) -> Seq<int> {
    seq![a@[0] as int, a@[1] as int, a@[2] as int, a@[3] as int, a@[4] as int, a@[5] as int]
}

/// A machine integer.
pub open spec fn fits(a: int) -> bool {
    i32::MIN <= a <= i32::MAX
}

/// Sums of the six attributes.
pub open spec fn sum6(a: Seq<int>, b: Seq<int>) -> Seq<int> {
    seq![a[0] + b[0], a[1] + b[1], a[2] + b[2], a[3] + b[3], a[4] + b[4], a[5] + b[5]]
}

impl EffectView {
    /// Nothing contributed.
    pub open spec fn nothing() -> EffectView {
        EffectView {
            youqing: Seq::empty(),
            ganjing: 0,
            xunlian: 0,
            saihou: 0,
            deyilv: Seq::empty(),
            bonus: seq![0int, 0, 0, 0, 0, 0],
            wiz_vital_bonus: 0,
            fail_rate_drop: Seq::empty(),
            vital_cost_drop: Seq::empty(),
            event_effect_up: 0,
            event_recovery_amount_up: 0,
            hint_count_bonus: 0,
        }
    }

    /// The effects of two cards together. Speciality rate and additional hints are not added up.
    pub open spec fn plus(self, other: EffectView) -> EffectView {
        EffectView {
            youqing: self.youqing + other.youqing,
            ganjing: self.ganjing + other.ganjing,
            xunlian: self.xunlian + other.xunlian,
            saihou: self.saihou + other.saihou,
            deyilv: self.deyilv,
            bonus: sum6(self.bonus, other.bonus),
            wiz_vital_bonus: self.wiz_vital_bonus + other.wiz_vital_bonus,
            fail_rate_drop: self.fail_rate_drop + other.fail_rate_drop,
            vital_cost_drop: self.vital_cost_drop + other.vital_cost_drop,
            event_effect_up: self.event_effect_up + other.event_effect_up,
            event_recovery_amount_up: self.event_recovery_amount_up + other.event_recovery_amount_up,
            hint_count_bonus: self.hint_count_bonus,
        }
    }

    /// The numbers that add up are machine integers.
    pub open spec fn in_range(self) -> bool {
        &&& fits(self.ganjing) && fits(self.xunlian) && fits(self.saihou) && fits(
            self.wiz_vital_bonus,
        )
        &&& fits(self.event_effect_up) && fits(self.event_recovery_amount_up) && fits(
            self.hint_count_bonus,
        )
        &&& forall|i: int| 0 <= i < 6 ==> fits(#[trigger] self.bonus[i])
    }

    /// After one effect line: the line's number picks what the value is added to or stacked on.
    /// Lines with an unknown number change nothing.
    pub open spec fn with_line(self, effect_id: int, value: int) -> EffectView {
        if effect_id == 1 {
            EffectView { youqing: self.youqing.push(value * 100), ..self }
        } else if effect_id == 2 {
            EffectView { ganjing: self.ganjing + value, ..self }
        } else if 3 <= effect_id < 8 {
            EffectView {
                bonus: self.bonus.update(effect_id - 3, self.bonus[effect_id - 3] + value),
                ..self
            }
        } else if effect_id == 8 {
            EffectView { xunlian: self.xunlian + value, ..self }
        } else if effect_id == 15 {
            EffectView { saihou: self.saihou + value, ..self }
        } else if effect_id == 19 {
            EffectView { deyilv: self.deyilv.push(value * 100), ..self }
        } else if effect_id == 27 {
            EffectView { fail_rate_drop: self.fail_rate_drop.push(value * 100), ..self }
        } else if effect_id == 28 {
            EffectView { vital_cost_drop: self.vital_cost_drop.push(value * 100), ..self }
        } else if effect_id == 30 {
            EffectView { bonus: self.bonus.update(5, self.bonus[5] + value), ..self }
        } else if effect_id == 31 {
            EffectView { wiz_vital_bonus: self.wiz_vital_bonus + value, ..self }
        } else if effect_id == 33 {
            EffectView { hint_count_bonus: self.hint_count_bonus + value, ..self }
        } else if effect_id == 41 {
            EffectView {
                bonus: seq![
                    self.bonus[0] + 1,
                    self.bonus[1] + 1,
                    self.bonus[2] + 1,
                    self.bonus[3] + 1,
                    self.bonus[4] + 1,
                    self.bonus[5],
                ],
                ..self
            }
        } else {
            self
        }
    }
}

/// The value of a line that is stacked can be kept in hundredths.
pub open spec fn line_value_ok(effect_id: int, value: int) -> bool {
    effect_id == 1 || effect_id == 19 || effect_id == 27 || effect_id == 28 ==> fits(value * 100)
}

impl CardTrainingEffect {
    /// The contribution as mathematical values.
    pub open spec fn view(&self) -> EffectView {
        EffectView {
            youqing: self.youqing.view(),
            ganjing: self.ganjing as int,
            xunlian: self.xunlian as int,
            saihou: self.saihou as int,
            deyilv: self.deyilv.view(),
            bonus: ints6(self.bonus),
            wiz_vital_bonus: self.wiz_vital_bonus as int,
            fail_rate_drop: self.fail_rate_drop.view(),
            vital_cost_drop: self.vital_cost_drop.view(),
            event_effect_up: self.event_effect_up as int,
            event_recovery_amount_up: self.event_recovery_amount_up as int,
            hint_count_bonus: self.hint_count_bonus as int,
        }
    }

    /// Nothing contributed.
    pub fn none() -> (e: CardTrainingEffect)
        ensures
            e.view() == EffectView::nothing(),
    {
        let e: CardTrainingEffect = CardTrainingEffect {
            youqing: Stack { parts: Vec::new() },
            ganjing: 0,
            xunlian: 0,
            saihou: 0,
            deyilv: Stack { parts: Vec::new() },
            bonus: [0, 0, 0, 0, 0, 0],
            wiz_vital_bonus: 0,
            fail_rate_drop: Stack { parts: Vec::new() },
            vital_cost_drop: Stack { parts: Vec::new() },
            event_effect_up: 0,
            event_recovery_amount_up: 0,
            hint_count_bonus: 0,
        };
        assert(e.youqing.view() =~= Seq::<int>::empty());
        assert(e.deyilv.view() =~= Seq::<int>::empty());
        assert(e.fail_rate_drop.view() =~= Seq::<int>::empty());
        assert(e.vital_cost_drop.view() =~= Seq::<int>::empty());
        assert(ints6(e.bonus) =~= seq![0int, 0, 0, 0, 0, 0]);
        e
    }

    /// Drops the friendship bonus.
    pub fn clear_friendship(&mut self)
        ensures
            final(self).view() == (EffectView { youqing: Seq::empty(), ..old(self).view() }),
    {
        self.youqing = Stack { parts: Vec::new() };
        assert(self.youqing.view() =~= Seq::<int>::empty());
    }

    /// The contribution of a card's panel alone.
    pub fn from_value(v: &CardValue) -> (e: CardTrainingEffect)
        ensures
            e.view() == panel_effect(v),
    {
        CardTrainingEffect {
            youqing: Stack::of(v.youqing),
            ganjing: v.ganjing,
            xunlian: v.xunlian,
            saihou: v.saihou,
            deyilv: Stack::of(v.deyilv),
            bonus: v.bonus,
            wiz_vital_bonus: v.wiz_vital_bonus,
            fail_rate_drop: Stack::of(v.fail_rate_drop),
            vital_cost_drop: Stack::of(v.vital_cost_drop),
            event_effect_up: v.event_effect_up,
            event_recovery_amount_up: v.event_recovery_amount_up,
            hint_count_bonus: 0,
        }
    }

    /// The effects of two cards together, without the speciality rate.
    pub fn add(&self, other: &CardTrainingEffect) -> (e: CardTrainingEffect)
        requires
            self.view().plus(other.view()).in_range(),
        ensures
            e.view() == self.view().plus(other.view()),
    {
        let ghost p = self.view().plus(other.view());
        assert(fits(p.bonus[0]) && fits(p.bonus[1]) && fits(p.bonus[2]) && fits(p.bonus[3]) && fits(
            p.bonus[4],
        ) && fits(p.bonus[5]));
        let bonus: [i32; 6] = [
            self.bonus[0] + other.bonus[0],
            self.bonus[1] + other.bonus[1],
            self.bonus[2] + other.bonus[2],
            self.bonus[3] + other.bonus[3],
            self.bonus[4] + other.bonus[4],
            self.bonus[5] + other.bonus[5],
        ];
        assert(ints6(bonus) =~= p.bonus);
        CardTrainingEffect {
            youqing: self.youqing.concat(&other.youqing),
            ganjing: self.ganjing + other.ganjing,
            xunlian: self.xunlian + other.xunlian,
            saihou: self.saihou + other.saihou,
            deyilv: self.deyilv.copy(),
            bonus,
            wiz_vital_bonus: self.wiz_vital_bonus + other.wiz_vital_bonus,
            fail_rate_drop: self.fail_rate_drop.concat(&other.fail_rate_drop),
            vital_cost_drop: self.vital_cost_drop.concat(&other.vital_cost_drop),
            event_effect_up: self.event_effect_up + other.event_effect_up,
            event_recovery_amount_up: self.event_recovery_amount_up + other.event_recovery_amount_up,
            hint_count_bonus: self.hint_count_bonus,
        }
    }

    /// Applies one effect line.
    pub fn add_effect_line(&mut self, effect_id: i32, value: i32)
        requires
            old(self).view().with_line(effect_id as int, value as int).in_range(),
            line_value_ok(effect_id as int, value as int),
        ensures
            final(self).view() == old(self).view().with_line(effect_id as int, value as int),
    {
        let ghost before = self.view();
        let ghost after = before.with_line(effect_id as int, value as int);
        if effect_id == 1 {
            self.youqing.push(value * 100);
        } else if effect_id == 2 {
            self.ganjing = self.ganjing + value;
        } else if 3 <= effect_id && effect_id < 8 {
            let i: usize = (effect_id - 3) as usize;
            assert(fits(after.bonus[i as int]));
            self.bonus[i] = self.bonus[i] + value;
            assert(ints6(self.bonus) =~= after.bonus);
        } else if effect_id == 8 {
            self.xunlian = self.xunlian + value;
        } else if effect_id == 15 {
            self.saihou = self.saihou + value;
        } else if effect_id == 19 {
            self.deyilv.push(value * 100);
        } else if effect_id == 27 {
            self.fail_rate_drop.push(value * 100);
        } else if effect_id == 28 {
            self.vital_cost_drop.push(value * 100);
        } else if effect_id == 30 {
            assert(fits(after.bonus[5]));
            self.bonus[5] = self.bonus[5] + value;
            assert(ints6(self.bonus) =~= after.bonus);
        } else if effect_id == 31 {
            self.wiz_vital_bonus = self.wiz_vital_bonus + value;
        } else if effect_id == 33 {
            self.hint_count_bonus = self.hint_count_bonus + value;
        } else if effect_id == 41 {
            assert(fits(after.bonus[0]) && fits(after.bonus[1]) && fits(after.bonus[2]) && fits(
                after.bonus[3],
            ) && fits(after.bonus[4]));
            self.bonus = [
                self.bonus[0] + 1,
                self.bonus[1] + 1,
                self.bonus[2] + 1,
                self.bonus[3] + 1,
                self.bonus[4] + 1,
                self.bonus[5],
            ];
            assert(ints6(self.bonus) =~= after.bonus);
        }
    }
}

/// The texts of a contribution that are not whole numbers: each percentage where it is above zero,
/// and the status bonus.
#[derive(Debug, Clone, Default)]
pub struct EffectTexts {
    pub youqing: Option<String>,
    pub deyilv: Option<String>,
    pub fail_rate_drop: Option<String>,
    pub vital_cost_drop: Option<String>,
    pub bonus: String,
}

/// A text between a label and an end; nothing where there is no text.
pub open spec fn text_cell(label: Seq<char>, text: Option<String>, end: Seq<char>) -> Seq<char> {
    match text {
        Some(t) => label + t@ + end,
        None => Seq::empty(),
    }
}

/// A number above zero behind a label; nothing for other numbers.
pub open spec fn number_cell(label: Seq<char>, value: int) -> Seq<char> {
    if value > 0 {
        label + dec(value) + " "@
    } else {
        Seq::empty()
    }
}

/// The line that lists a contribution.
pub open spec fn effect_line(e: EffectView, t: EffectTexts) -> Seq<char> {
    text_cell("友情"@, t.youqing, " "@) + number_cell("干劲"@, e.ganjing) + number_cell(
        "训练"@,
        e.xunlian,
    ) + number_cell("赛后"@, e.saihou) + text_cell("得意"@, t.deyilv, " "@) + word_if(
        e.bonus != seq![0int, 0, 0, 0, 0, 0],
        "副属"@ + t.bonus@ + " "@,
    ) + number_cell("回体+"@, e.wiz_vital_bonus) + text_cell("失败-"@, t.fail_rate_drop, "% "@)
        + text_cell("耗体-"@, t.vital_cost_drop, "% "@) + number_cell(
        "事件效果+"@,
        e.event_effect_up,
    ) + number_cell("事件回复+"@, e.event_recovery_amount_up)
}

/// Appends a text between a label and an end.
fn append_text_cell(s: &mut String, label: &str, text: &Option<String>, end: &str)
    ensures
        final(s)@ == old(s)@ + text_cell(label@, *text, end@),
{
    let ghost before = s@;
    match text {
        Some(t) => {
            s.append(label);
            s.append(t.as_str());
            s.append(end);
            assert(s@ =~= before + (label@ + t@ + end@));
        },
        None => {
            assert(s@ =~= before + text_cell(label@, *text, end@));
        },
    }
}

/// Appends a number above zero behind a label.
fn append_number_cell(s: &mut String, label: &str, value: i32)
    ensures
        final(s)@ == old(s)@ + number_cell(label@, value as int),
{
    let ghost before = s@;
    if value > 0 {
        s.append(label);
        append_int(s, value as i64);
        s.append(" ");
    }
    assert(s@ =~= before + number_cell(label@, value as int));
}

impl CardTrainingEffect {
    /// The line that lists the contribution, given the texts that are not whole numbers.
    pub fn explain(&self, texts: &EffectTexts) -> (s: String)
        ensures
            s@ == effect_line(self.view(), *texts),
    {
        let mut bonus: String = "副属".to_owned();
        bonus.append(texts.bonus.as_str());
        bonus.append(" ");
        let some: bool = self.bonus[0] != 0 || self.bonus[1] != 0 || self.bonus[2] != 0
            || self.bonus[3] != 0 || self.bonus[4] != 0 || self.bonus[5] != 0;
        let ghost none = seq![0int, 0, 0, 0, 0, 0];
        assert(some == (ints6(self.bonus) != none)) by {
            if !some {
                assert(ints6(self.bonus) =~= none);
            } else if ints6(self.bonus) == none {
                assert(forall|i: int| 0 <= i < 6 ==> #[trigger] ints6(self.bonus)[i] == none[i]);
                assert(ints6(self.bonus)[0] == 0 && ints6(self.bonus)[1] == 0 && ints6(
                    self.bonus,
                )[2] == 0 && ints6(self.bonus)[3] == 0 && ints6(self.bonus)[4] == 0 && ints6(
                    self.bonus,
                )[5] == 0);
            }
        }
        let mut s: String = String::new();
        append_text_cell(&mut s, "友情", &texts.youqing, " ");
        append_number_cell(&mut s, "干劲", self.ganjing);
        append_number_cell(&mut s, "训练", self.xunlian);
        append_number_cell(&mut s, "赛后", self.saihou);
        append_text_cell(&mut s, "得意", &texts.deyilv, " ");
        append_if(&mut s, some, bonus.as_str());
        append_number_cell(&mut s, "回体+", self.wiz_vital_bonus);
        append_text_cell(&mut s, "失败-", &texts.fail_rate_drop, "% ");
        append_text_cell(&mut s, "耗体-", &texts.vital_cost_drop, "% ");
        append_number_cell(&mut s, "事件效果+", self.event_effect_up);
        append_number_cell(&mut s, "事件回复+", self.event_recovery_amount_up);
        assert(s@ =~= effect_line(self.view(), *texts));
        s
    }
}

/// The contribution of a card's panel alone.
pub open spec fn panel_effect(v: &CardValue) -> EffectView {
    EffectView {
        youqing: seq![v.youqing as int],
        ganjing: v.ganjing as int,
        xunlian: v.xunlian as int,
        saihou: v.saihou as int,
        deyilv: seq![v.deyilv as int],
        bonus: ints6(v.bonus),
        wiz_vital_bonus: v.wiz_vital_bonus as int,
        fail_rate_drop: seq![v.fail_rate_drop as int],
        vital_cost_drop: seq![v.vital_cost_drop as int],
        event_effect_up: v.event_effect_up as int,
        event_recovery_amount_up: v.event_recovery_amount_up as int,
        hint_count_bonus: 0,
    }
}

/// A support card in play.
#[derive(Debug, Clone)]
pub struct SupportCard {
    /// The card's tables, shared by all cards of the number.
    pub data: &'static SupportCardData,
    /// Number of the card.
    pub card_id: u32,
    /// Limit break.
    pub rank: u32,
    /// Kind of the card.
    pub card_type: i32,
    /// Bond.
    pub friendship: i32,
    /// Whether the scenario strengthens the card.
    pub is_link_card: bool,
    /// Whether the contribution has been computed.
    pub is_locked: bool,
    /// The contribution as it was last computed; the panel's to begin with.
    pub effect: CardTrainingEffect,
    /// The state of the unique effect, by name.
    pub effect_state: HashMap<String, u32>,
    /// Hint levels gained so far.
    pub total_hints: i32,
}

/// How many cards of each kind a deck holds; friends and groups are counted together.
pub open spec fn kind_count(deck: Seq<SupportCard>, kind: int) -> int
    decreases deck.len(),
{
    if deck.len() == 0 {
        0
    } else {
        kind_count(deck.drop_last(), kind) + if deck.last().card_type == kind || (kind == 5
            && deck.last().card_type >= 5) {
            1int
        } else {
            0
        }
    }
}

/// One kind's line of the effect that depends on the deck: one for each card of the kind in the
/// deck, but at most two.
pub open spec fn deck_line(e: EffectView, deck: Seq<SupportCard>, kind: int) -> EffectView {
    let n = kind_count(deck, kind);
    let id = if kind == 5 {
        30int
    } else {
        kind + 3
    };
    if n > 0 {
        e.with_line(
            id,
            if n < 2 {
                n
            } else {
                2
            },
        )
    } else {
        e
    }
}

/// The lines of all kinds in turn.
pub open spec fn deck_lines(e: EffectView, deck: Seq<SupportCard>, upto: int) -> EffectView
    decreases upto,
{
    if upto <= 0 {
        e
    } else {
        deck_line(deck_lines(e, deck, upto - 1), deck, upto - 1)
    }
}

/// What a card contributes: its panel and the lines of its unique effect, if that is active.
///
/// - A bond effect gives up to two lines once the bond reaches its threshold.
/// - A friendship effect gives one line where some card shines at the training.
/// - A deck effect gives a line for every kind in the deck once the bond reaches its threshold.
pub open spec fn training_effect(
    card: &SupportCard,
    deck: Seq<SupportCard>,
    shining: int,
) -> EffectView {
    let base = panel_effect(&card.data.card_value@[card.rank as int]);
    let p = card.data.unique_effect_param@;
    let ty = card.data.unique_effect_type;
    if ty == 1 || ty == 2 {
        if card.friendship >= p[1] {
            let one = if p[2] > 0 {
                base.with_line(p[2] as int, p[3] as int)
            } else {
                base
            };
            if p[4] > 0 {
                one.with_line(p[4] as int, p[5] as int)
            } else {
                one
            }
        } else {
            base
        }
    } else if ty == 13 {
        if shining > 0 {
            base.with_line(p[1] as int, p[2] as int)
        } else {
            base
        }
    } else if ty == 20 {
        if card.friendship >= p[2] {
            deck_lines(base, deck, 6)
        } else {
            base
        }
    } else {
        base
    }
}

/// The numbers of an effect stay machine integers when a line is applied.
pub open spec fn line_ok(e: EffectView, effect_id: int, value: int) -> bool {
    e.with_line(effect_id, value).in_range() && line_value_ok(effect_id, value)
}

/// The deck effect can be computed: no card of unknown kind, and no number out of range.
pub open spec fn deck_lines_ok(base: EffectView, deck: Seq<SupportCard>) -> bool {
    &&& deck.len() <= i32::MAX
    &&& forall|i: int| 0 <= i < deck.len() ==> (#[trigger] deck[i]).card_type >= 0
    &&& forall|k: int| 0 <= k <= 6 ==> (#[trigger] deck_lines(base, deck, k)).in_range()
}

/// The contribution of a card can be computed: the tables it reads are there, and no number
/// leaves the range of machine integers.
pub open spec fn effect_computable(card: &SupportCard, deck: Seq<SupportCard>, shining: int) -> bool {
    let base = panel_effect(&card.data.card_value@[card.rank as int]);
    let p = card.data.unique_effect_param@;
    let ty = card.data.unique_effect_type;
    let one = if p[2] > 0 {
        base.with_line(p[2] as int, p[3] as int)
    } else {
        base
    };
    &&& card.rank < card.data.card_value@.len()
    &&& (ty == 1 || ty == 2) ==> {
        &&& p.len() >= 2
        &&& card.friendship >= p[1] ==> p.len() >= 5
        &&& card.friendship >= p[1] && p[2] > 0 ==> line_ok(base, p[2] as int, p[3] as int)
        &&& card.friendship >= p[1] && p[4] > 0 ==> p.len() >= 6 && line_ok(
            one,
            p[4] as int,
            p[5] as int,
        )
    }
    &&& ty == 13 ==> {
        &&& shining > 0 ==> p.len() >= 3 && line_ok(base, p[1] as int, p[2] as int)
    }
    &&& ty == 20 ==> {
        &&& p.len() >= 3
        &&& card.friendship >= p[2] ==> deck_lines_ok(base, deck)
    }
}

proof fn lemma_kind_count_bound(deck: Seq<SupportCard>, kind: int)
    ensures
        0 <= kind_count(deck, kind) <= deck.len(),
    decreases deck.len(),
{
    if deck.len() > 0 {
        lemma_kind_count_bound(deck.drop_last(), kind);
    }
}

/// Counts the cards of each kind in a deck.
fn count_kinds(deck: &Vec<SupportCard>) -> (counts: [i32; 6])
    requires
        deck@.len() <= i32::MAX,
        forall|i: int| 0 <= i < deck@.len() ==> (#[trigger] deck@[i]).card_type >= 0,
    ensures
        forall|k: int| 0 <= k < 6 ==> #[trigger] counts@[k] == kind_count(deck@, k),
{
    let mut counts: [i32; 6] = [0, 0, 0, 0, 0, 0];
    let mut i: usize = 0;
    while i < deck.len()
        invariant
            i <= deck@.len(),
            deck@.len() <= i32::MAX,
            forall|j: int| 0 <= j < deck@.len() ==> (#[trigger] deck@[j]).card_type >= 0,
            forall|k: int|
                0 <= k < 6 ==> #[trigger] counts@[k] == kind_count(deck@.take(i as int), k),
        decreases deck@.len() - i,
    {
        let ghost pre = deck@.take(i as int);
        let ghost next = deck@.take(i as int + 1);
        let ghost before = counts@;
        let ty: i32 = deck[i].card_type;
        let kind: usize = if ty >= 5 {
            5
        } else {
            ty as usize
        };
        assert(next.drop_last() =~= pre);
        assert(next.last() == deck@[i as int]);
        proof {
            lemma_kind_count_bound(pre, kind as int);
            assert(before[kind as int] == kind_count(pre, kind as int));
        }
        counts[kind] = counts[kind] + 1;
        assert forall|k: int| 0 <= k < 6 implies #[trigger] counts@[k] == kind_count(next, k) by {
            assert(before[k] == kind_count(pre, k));
        }
        i = i + 1;
    }
    assert(deck@.take(deck@.len() as int) =~= deck@);
    counts
}

impl SupportCard {
    /// The card's short name and limit break.
    pub fn short_name(&self) -> (s: String)
        requires
            crate::text::find_from(self.data.card_name@, ']', 0) < self.data.card_name@.len(),
        ensures
            s@ == card_short_name(self.data.card_name@) + "◆ "@ + dec(self.rank as int),
    {
        let mut s: String = self.data.short_name();
        s.append("◆ ");
        append_int(&mut s, self.rank as i64);
        s
    }

    /// The line that describes the card, given the texts of its contribution and of the state of
    /// its unique effect. The state is shown where there is any.
    pub fn explain(&self, texts: &EffectTexts, state: &str) -> (s: String)
        requires
            crate::text::find_from(self.data.card_name@, ']', 0) < self.data.card_name@.len(),
        ensures
            s@ == card_short_name(self.data.card_name@) + "◆ "@ + dec(self.rank as int) + " 绊"@ + dec(
                self.friendship as int,
            ) + " "@ + effect_line(self.effect.view(), *texts) + if self.effect_state@.is_empty() {
                Seq::empty()
            } else {
                " "@ + state@
            } + word_if(self.is_locked, " [锁定]"@),
    {
        let line: String = self.effect.explain(texts);
        let mut s: String = self.short_name();
        s.append(" 绊");
        append_int(&mut s, self.friendship as i64);
        s.append(" ");
        s.append(line.as_str());
        let ghost before = s@;
        if !self.effect_state.is_empty() {
            s.append(" ");
            s.append(state);
        }
        assert(s@ =~= before + if self.effect_state@.is_empty() {
            Seq::empty()
        } else {
            " "@ + state@
        });
        append_if(&mut s, self.is_locked, " [锁定]");
        s
    }

    /// The tables know the card's limit break.
    pub open spec fn ranked(&self) -> bool {
        self.rank < self.data.card_value@.len()
    }

    /// The panel at the card's limit break.
    pub open spec fn value(&self) -> CardValue {
        self.data.card_value@[self.rank as int]
    }

    /// The panel at the card's limit break.
    pub fn card_value(&self) -> (v: &CardValue)
        requires
            self.rank < self.data.card_value@.len(),
        ensures
            *v == self.data.card_value@[self.rank as int],
    {
        &self.data.card_value[self.rank as usize]
    }

    /// The initial status by attribute.
    pub fn initial_bonus(&self) -> (b: &[i32; 6])
        requires
            self.rank < self.data.card_value@.len(),
        ensures
            *b == self.data.card_value@[self.rank as int].initial_bonus,
    {
        &self.card_value().initial_bonus
    }

    /// A fresh card of the given tables at a limit break.
    ///
    /// Refused for a limit break above four.
    pub fn new(data: &'static SupportCardData, idrank: u32) -> (r: Result<SupportCard, SimError>)
        requires
            idrank % 10 <= 4 ==> idrank % 10 < data.card_value@.len(),
        ensures
            match r {
                Ok(card) => idrank % 10 <= 4 && card == (SupportCard {
                    data,
                    card_id: idrank / 10,
                    rank: idrank % 10,
                    card_type: data.card_type,
                    friendship: data.card_value@[(idrank % 10) as int].initial_jiban,
                    is_link_card: false,
                    is_locked: false,
                    effect: card.effect,
                    effect_state: card.effect_state,
                    total_hints: 0,
                }) && card.effect_state@ == Map::<String, u32>::empty() && card.effect.view() == panel_effect(&data.card_value@[(idrank % 10) as int]),
                Err(e) => idrank % 10 > 4 && e == (SimError::RankOutOfRange { idrank }),
            },
    {
        let rank: u32 = idrank % 10;
        if rank > 4 {
            return Err(SimError::RankOutOfRange { idrank });
        }
        let friendship: i32 = data.card_value[rank as usize].initial_jiban;
        let effect: CardTrainingEffect = CardTrainingEffect::from_value(
            &data.card_value[rank as usize],
        );
        Ok(
            SupportCard {
                data,
                card_id: idrank / 10,
                rank,
                card_type: data.card_type,
                friendship,
                is_link_card: false,
                is_locked: false,
                effect,
                effect_state: HashMap::new(),
                total_hints: 0,
            },
        )
    }

    /// What the card contributes at a training where `shining` cards shine.
    pub fn calc_training_effect(&self, deck: &Vec<SupportCard>, shining: usize) -> (e:
        CardTrainingEffect)
        requires
            effect_computable(self, deck@, shining as int),
        ensures
            e.view() == training_effect(self, deck@, shining as int),
    {
        let mut ret: CardTrainingEffect = CardTrainingEffect::from_value(self.card_value());
        let param: &Vec<i32> = &self.data.unique_effect_param;
        let ty: u32 = self.data.unique_effect_type;
        if ty == 1 || ty == 2 {
            if self.friendship >= param[1] {
                if param[2] > 0 {
                    ret.add_effect_line(param[2], param[3]);
                }
                if param[4] > 0 {
                    ret.add_effect_line(param[4], param[5]);
                }
            }
        } else if ty == 13 {
            if shining > 0 {
                ret.add_effect_line(param[1], param[2]);
            }
        } else if ty == 20 {
            if self.friendship >= param[2] {
                let counts: [i32; 6] = count_kinds(deck);
                let ghost base = ret.view();
                let mut i: usize = 0;
                while i < 6
                    invariant
                        i <= 6,
                        deck_lines_ok(base, deck@),
                        forall|k: int| 0 <= k < 6 ==> #[trigger] counts@[k] == kind_count(deck@, k),
                        ret.view() == deck_lines(base, deck@, i as int),
                    decreases 6 - i,
                {
                    assert(counts@[i as int] == kind_count(deck@, i as int));
                    assert(deck_lines(base, deck@, i as int + 1).in_range());
                    proof {
                        lemma_kind_count_bound(deck@, i as int);
                    }
                    if counts[i] > 0 {
                        let id: i32 = if i == 5 {
                            30
                        } else {
                            i as i32 + 3
                        };
                        ret.add_effect_line(id, counts[i].min(2));
                    }
                    i = i + 1;
                }
            }
        }
        ret
    }
}

/// Two cards' effects together do not depend on which comes first, except for the order in which
/// percentages are stacked and for what is not added up.
pub proof fn law_plus_is_symmetric(a: EffectView, b: EffectView)
    ensures
        a.plus(b).ganjing == b.plus(a).ganjing,
        a.plus(b).xunlian == b.plus(a).xunlian,
        a.plus(b).saihou == b.plus(a).saihou,
        a.plus(b).bonus == b.plus(a).bonus,
        a.plus(b).wiz_vital_bonus == b.plus(a).wiz_vital_bonus,
        a.plus(b).youqing.to_multiset() == b.plus(a).youqing.to_multiset(),
        a.plus(b).fail_rate_drop.to_multiset() == b.plus(a).fail_rate_drop.to_multiset(),
        a.plus(b).vital_cost_drop.to_multiset() == b.plus(a).vital_cost_drop.to_multiset(),
{
    vstd::seq_lib::lemma_multiset_commutative(a.youqing, b.youqing);
    vstd::seq_lib::lemma_multiset_commutative(b.youqing, a.youqing);
    vstd::seq_lib::lemma_multiset_commutative(a.fail_rate_drop, b.fail_rate_drop);
    vstd::seq_lib::lemma_multiset_commutative(b.fail_rate_drop, a.fail_rate_drop);
    vstd::seq_lib::lemma_multiset_commutative(a.vital_cost_drop, b.vital_cost_drop);
    vstd::seq_lib::lemma_multiset_commutative(b.vital_cost_drop, a.vital_cost_drop);
    assert(a.plus(b).bonus =~= b.plus(a).bonus);
    assert(a.youqing.to_multiset().add(b.youqing.to_multiset()) =~= b.youqing.to_multiset().add(
        a.youqing.to_multiset(),
    ));
    assert(a.fail_rate_drop.to_multiset().add(b.fail_rate_drop.to_multiset())
        =~= b.fail_rate_drop.to_multiset().add(a.fail_rate_drop.to_multiset()));
    assert(a.vital_cost_drop.to_multiset().add(b.vital_cost_drop.to_multiset())
        =~= b.vital_cost_drop.to_multiset().add(a.vital_cost_drop.to_multiset()));
}

/// Two states of a card differ in the contribution that is kept with it at most.
pub open spec fn same_card(a: SupportCard, b: SupportCard) -> bool {
    b == (SupportCard { effect: b.effect, is_locked: b.is_locked, ..a })
}

/// Two states of a deck differ in the contributions that are kept with the cards at most.
pub open spec fn same_cards(a: Seq<SupportCard>, b: Seq<SupportCard>) -> bool {
    &&& a.len() == b.len()
    &&& forall|d: int| 0 <= d < a.len() ==> same_card(a[d], #[trigger] b[d])
}

proof fn lemma_same_kinds(a: Seq<SupportCard>, b: Seq<SupportCard>, kind: int)
    requires
        same_cards(a, b),
    ensures
        kind_count(a, kind) == kind_count(b, kind),
    decreases a.len(),
{
    if a.len() > 0 {
        assert(same_card(a.last(), b.last()));
        assert forall|d: int| 0 <= d < a.len() - 1 implies same_card(
            a.drop_last()[d],
            #[trigger] b.drop_last()[d],
        ) by {
            assert(b.drop_last()[d] == b[d]);
        }
        lemma_same_kinds(a.drop_last(), b.drop_last(), kind);
    }
}

proof fn lemma_same_lines(a: Seq<SupportCard>, b: Seq<SupportCard>, e: EffectView, upto: int)
    requires
        same_cards(a, b),
    ensures
        deck_lines(e, a, upto) == deck_lines(e, b, upto),
    decreases upto,
{
    if upto > 0 {
        lemma_same_lines(a, b, e, upto - 1);
        lemma_same_kinds(a, b, upto - 1);
    }
}

/// What a card contributes does not depend on what was kept of it before.
pub proof fn law_contribution_ignores_what_was_kept(
    a: Seq<SupportCard>,
    b: Seq<SupportCard>,
    d: int,
    shining: int,
)
    requires
        same_cards(a, b),
        0 <= d < a.len(),
    ensures
        training_effect(&a[d], a, shining) == training_effect(&b[d], b, shining),
        effect_computable(&a[d], a, shining) <==> effect_computable(&b[d], b, shining),
{
    assert(same_card(a[d], b[d]));
    let base = panel_effect(&a[d].data.card_value@[a[d].rank as int]);
    lemma_same_lines(a, b, base, 6);
    assert(deck_lines_ok(base, a) <==> deck_lines_ok(base, b)) by {
        assert forall|k: int| 0 <= k <= 6 implies #[trigger] deck_lines(base, a, k) == deck_lines(
            base,
            b,
            k,
        ) by {
            lemma_same_lines(a, b, base, k);
        }
        assert forall|k: int| 0 <= k <= 6 implies #[trigger] deck_lines(base, b, k) == deck_lines(
            base,
            a,
            k,
        ) by {
            lemma_same_lines(a, b, base, k);
        }
        assert forall|i: int| 0 <= i < a.len() implies (#[trigger] a[i]).card_type
            == b[i].card_type by {
            assert(same_card(a[i], b[i]));
        }
        assert forall|i: int| 0 <= i < a.len() implies (#[trigger] b[i]).card_type
            == a[i].card_type by {
            assert(same_card(a[i], b[i]));
        }
    }
}

/// A card without an effect of its own contributes what its panel says at its limit break, whatever
/// the deck and its bond are.
pub proof fn law_plain_card_is_its_panel(card: &SupportCard, deck: Seq<SupportCard>, shining: int)
    requires
        card.data.unique_effect_type != 1 && card.data.unique_effect_type != 2
            && card.data.unique_effect_type != 13 && card.data.unique_effect_type != 20,
    ensures
        ({
            let v = card.data.card_value@[card.rank as int];
            let e = training_effect(card, deck, shining);
            &&& e.youqing =~= seq![v.youqing as int]
            &&& e.ganjing == v.ganjing
            &&& e.xunlian == v.xunlian
            &&& e.saihou == v.saihou
            &&& e.deyilv =~= seq![v.deyilv as int]
            &&& forall|i: int| 0 <= i < 6 ==> #[trigger] e.bonus[i] == v.bonus@[i]
            &&& e.wiz_vital_bonus == v.wiz_vital_bonus
            &&& e.fail_rate_drop =~= seq![v.fail_rate_drop as int]
            &&& e.vital_cost_drop =~= seq![v.vital_cost_drop as int]
            &&& e.event_effect_up == v.event_effect_up
            &&& e.event_recovery_amount_up == v.event_recovery_amount_up
            &&& e.hint_count_bonus == 0
        }),
{
}

/// An effect that needs a bond works from this bond on: below it the card is its panel, from it on
/// the first line counts, and the second where there is one.
pub proof fn law_own_effect_needs_its_bond(card: &SupportCard, deck: Seq<SupportCard>, shining: int)
    requires
        card.data.unique_effect_type == 1 || card.data.unique_effect_type == 2,
        card.data.unique_effect_param@.len() >= 6,
    ensures
        ({
            let p = card.data.unique_effect_param@;
            let panel = panel_effect(&card.data.card_value@[card.rank as int]);
            let e = training_effect(card, deck, shining);
            &&& card.friendship < p[1] ==> e == panel
            &&& card.friendship >= p[1] && p[2] > 0 && p[4] <= 0 ==> e == panel.with_line(
                p[2] as int,
                p[3] as int,
            )
            &&& card.friendship >= p[1] && p[2] > 0 && p[4] > 0 ==> e == panel.with_line(
                p[2] as int,
                p[3] as int,
            ).with_line(p[4] as int, p[5] as int)
            &&& card.friendship >= p[1] && p[2] <= 0 && p[4] <= 0 ==> e == panel
        }),
{
}

/// An effect for friendship trainings counts where somebody makes the training one, and only there.
pub proof fn law_friendship_effect_needs_shine(
    card: &SupportCard,
    deck: Seq<SupportCard>,
    shining: int,
)
    requires
        card.data.unique_effect_type == 13,
        card.data.unique_effect_param@.len() >= 3,
    ensures
        ({
            let p = card.data.unique_effect_param@;
            let panel = panel_effect(&card.data.card_value@[card.rank as int]);
            &&& shining > 0 ==> training_effect(card, deck, shining) == panel.with_line(
                p[1] as int,
                p[2] as int,
            )
            &&& shining <= 0 ==> training_effect(card, deck, shining) == panel
        }),
{
}

/// A line of an effect adds its value where its number says: one to the friendship bonus, two to the
/// motivation bonus, three to seven to the five attributes, eight to the training bonus, fifteen to
/// the race bonus, nineteen to the speciality rate, twenty-seven and twenty-eight to the drops,
/// thirty to the skill points, thirty-one to what wisdom restores; forty-one adds one to each of the
/// five attributes. Percentages are kept in hundredths.
pub proof fn law_lines_add_where_they_say(e: EffectView, id: int, value: int, i: int)
    requires
        e.bonus.len() == 6,
        0 <= i < 6,
    ensures
        ({
            let f = e.with_line(id, value);
            &&& f.youqing =~= if id == 1 {
                e.youqing.push(value * 100)
            } else {
                e.youqing
            }
            &&& f.deyilv =~= if id == 19 {
                e.deyilv.push(value * 100)
            } else {
                e.deyilv
            }
            &&& f.fail_rate_drop =~= if id == 27 {
                e.fail_rate_drop.push(value * 100)
            } else {
                e.fail_rate_drop
            }
            &&& f.vital_cost_drop =~= if id == 28 {
                e.vital_cost_drop.push(value * 100)
            } else {
                e.vital_cost_drop
            }
            &&& f.ganjing - e.ganjing == if id == 2 {
                value
            } else {
                0
            }
            &&& f.xunlian - e.xunlian == if id == 8 {
                value
            } else {
                0
            }
            &&& f.saihou - e.saihou == if id == 15 {
                value
            } else {
                0
            }
            &&& f.wiz_vital_bonus - e.wiz_vital_bonus == if id == 31 {
                value
            } else {
                0
            }
            &&& f.bonus[i] - e.bonus[i] == if (i < 5 && id == i + 3) || (i == 5 && id == 30) {
                value
            } else if i < 5 && id == 41 {
                1
            } else {
                0
            }
            &&& f.event_effect_up == e.event_effect_up
        }),
{
}

/// Contributions of two cards add up: percentages line up one after the other, numbers are sums.
pub proof fn law_contributions_add_up(a: EffectView, b: EffectView, i: int)
    requires
        0 <= i < 6,
    ensures
        a.plus(b).youqing =~= a.youqing + b.youqing,
        a.plus(b).fail_rate_drop =~= a.fail_rate_drop + b.fail_rate_drop,
        a.plus(b).vital_cost_drop =~= a.vital_cost_drop + b.vital_cost_drop,
        a.plus(b).ganjing == a.ganjing + b.ganjing,
        a.plus(b).xunlian == a.xunlian + b.xunlian,
        a.plus(b).saihou == a.saihou + b.saihou,
        a.plus(b).wiz_vital_bonus == a.wiz_vital_bonus + b.wiz_vital_bonus,
        a.plus(b).bonus[i] == a.bonus[i] + b.bonus[i],
        a.plus(b).event_effect_up == a.event_effect_up + b.event_effect_up,
        a.plus(b).event_recovery_amount_up == a.event_recovery_amount_up
            + b.event_recovery_amount_up,
        EffectView::nothing().plus(b).youqing =~= b.youqing,
{
}

/// The master card gains by the deck: for each kind that the deck holds its attribute by the number
/// of these cards, two at most; friends and groups count together for the skill points.
pub proof fn law_master_card_gains_by_the_deck(card: &SupportCard, deck: Seq<SupportCard>, shining: int)
    requires
        card.data.unique_effect_type == 20,
        card.data.unique_effect_param@.len() >= 3,
    ensures
        ({
            let p = card.data.unique_effect_param@;
            let panel = panel_effect(&card.data.card_value@[card.rank as int]);
            let e = training_effect(card, deck, shining);
            &&& card.friendship < p[2] ==> e == panel
            &&& card.friendship >= p[2] ==> {
                &&& e.youqing == panel.youqing
                &&& e.xunlian == panel.xunlian
                &&& forall|i: int|
                    0 <= i < 6 ==> #[trigger] e.bonus[i] == panel.bonus[i] + (if kind_count(deck, i)
                        <= 0 {
                        0int
                    } else if kind_count(deck, i) < 2 {
                        1
                    } else {
                        2
                    })
            }
        }),
{
    let panel = panel_effect(&card.data.card_value@[card.rank as int]);
    reveal_with_fuel(deck_lines, 7);
    let e0 = deck_lines(panel, deck, 0);
    let e1 = deck_lines(panel, deck, 1);
    let e2 = deck_lines(panel, deck, 2);
    let e3 = deck_lines(panel, deck, 3);
    let e4 = deck_lines(panel, deck, 4);
    let e5 = deck_lines(panel, deck, 5);
    let e6 = deck_lines(panel, deck, 6);
    assert(e0 == panel);
    lemma_one_kind(e0, deck, 0);
    lemma_one_kind(e1, deck, 1);
    lemma_one_kind(e2, deck, 2);
    lemma_one_kind(e3, deck, 3);
    lemma_one_kind(e4, deck, 4);
    lemma_one_kind(e5, deck, 5);
    assert forall|i: int| 0 <= i < 6 implies #[trigger] e6.bonus[i] == panel.bonus[i] + (
    if kind_count(deck, i) <= 0 {
        0int
    } else if kind_count(deck, i) < 2 {
        1
    } else {
        2
    }) by {
        if i == 0 {
        } else if i == 1 {
        } else if i == 2 {
        } else if i == 3 {
        } else if i == 4 {
        } else {
        }
    }
}

proof fn lemma_one_kind(e: EffectView, deck: Seq<SupportCard>, kind: int)
    requires
        e.bonus.len() == 6,
        0 <= kind < 6,
    ensures
        ({
            let f = deck_line(e, deck, kind);
            &&& f.bonus.len() == 6
            &&& forall|i: int|
                0 <= i < 6 ==> #[trigger] f.bonus[i] == e.bonus[i] + (if i != kind || kind_count(
                    deck,
                    i,
                ) <= 0 {
                    0int
                } else if kind_count(deck, i) < 2 {
                    1
                } else {
                    2
                })
            &&& f.youqing == e.youqing
            &&& f.xunlian == e.xunlian
        }),
{
}

/// Cards are counted by kind, and everything from the fifth kind on together: one more card raises
/// the count of its own kind by one and no other.
pub proof fn law_cards_count_by_kind(deck: Seq<SupportCard>, card: SupportCard, kind: int)
    requires
        0 <= kind <= 5,
        card.card_type >= 0,
    ensures
        kind_count(Seq::empty(), kind) == 0,
        kind_count(deck.push(card), kind) == kind_count(deck, kind) + (if (kind < 5
            && card.card_type == kind) || (kind == 5 && card.card_type >= 5) {
            1int
        } else {
            0
        }),
{
    assert(deck.push(card).drop_last() =~= deck);
}

} // verus!
