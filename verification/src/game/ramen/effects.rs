use vstd::prelude::*;
use super::{super_turn, year_of, RamenGame};
use crate::gamedata::constants::{clip_i32, div_trunc, div_trunc_clip};
use crate::gamedata::ramen::{
    FinalsEffect,
    PtEffect,
    RamenBasicEffect,
    RamenScenarioData,
    RegionEffect,
    RmjEffect,
};
use crate::text::{dec, part, push_part, texts};

verus! {

/// What the scenario adds to a training, all sources together.
#[derive(Debug, Clone, Copy, PartialEq, Eq, Structural)]
pub struct RamenTrainingEffect {
    /// Training bonus in percent.
    pub xunlian: i32,
    /// Friendship training bonus in percent.
    pub youqing: i32,
    /// PT bonus in percent.
    pub pt_bonus: i32,
    /// Rise of the status and PT caps.
    pub status_limit: i32,
    /// Further rise of the PT cap.
    pub pt_limit: i32,
    /// Drop of the failure rate in percent.
    pub fail_rate_drop: i32,
    /// Bond gained.
    pub friendship: i32,
    /// Speciality rate bonus.
    pub deyilv: i32,
    /// Hint rate bonus in percent.
    pub hint: i32,
    /// Whether every card of a covered training shows a hint.
    pub hint_special: bool,
    /// Number of clones.
    pub clone_count: i32,
}

/// The same effect as mathematical values.
pub struct EffectSum {
    pub xunlian: int,
    pub youqing: int,
    pub pt_bonus: int,
    pub status_limit: int,
    pub pt_limit: int,
    pub fail_rate_drop: int,
    pub friendship: int,
    pub deyilv: int,
    pub hint: int,
    pub hint_special: bool,
    pub clone_count: int,
}

impl Default for RamenTrainingEffect {
    fn default() -> (e: RamenTrainingEffect)
        ensures
            e@ == EffectSum::nothing(),
    {
        RamenTrainingEffect {
            xunlian: 0,
            youqing: 0,
            pt_bonus: 0,
            status_limit: 0,
            pt_limit: 0,
            fail_rate_drop: 0,
            friendship: 0,
            deyilv: 0,
            hint: 0,
            hint_special: false,
            clone_count: 0,
        }
    }
}

impl View for RamenTrainingEffect {
    type V = EffectSum;

    open spec fn view(&self) -> EffectSum {
        EffectSum {
            xunlian: self.xunlian as int,
            youqing: self.youqing as int,
            pt_bonus: self.pt_bonus as int,
            status_limit: self.status_limit as int,
            pt_limit: self.pt_limit as int,
            fail_rate_drop: self.fail_rate_drop as int,
            friendship: self.friendship as int,
            deyilv: self.deyilv as int,
            hint: self.hint as int,
            hint_special: self.hint_special,
            clone_count: self.clone_count as int,
        }
    }
}

impl EffectSum {
    /// All numbers are machine integers.
    pub open spec fn in_range(self) -> bool {
        &&& i32::MIN <= self.xunlian <= i32::MAX
        &&& i32::MIN <= self.youqing <= i32::MAX
        &&& i32::MIN <= self.pt_bonus <= i32::MAX
        &&& i32::MIN <= self.status_limit <= i32::MAX
        &&& i32::MIN <= self.pt_limit <= i32::MAX
        &&& i32::MIN <= self.fail_rate_drop <= i32::MAX
        &&& i32::MIN <= self.friendship <= i32::MAX
        &&& i32::MIN <= self.deyilv <= i32::MAX
        &&& i32::MIN <= self.hint <= i32::MAX
        &&& i32::MIN <= self.clone_count <= i32::MAX
    }

    /// No effect.
    pub open spec fn nothing() -> EffectSum {
        EffectSum {
            xunlian: 0,
            youqing: 0,
            pt_bonus: 0,
            status_limit: 0,
            pt_limit: 0,
            fail_rate_drop: 0,
            friendship: 0,
            deyilv: 0,
            hint: 0,
            hint_special: false,
            clone_count: 0,
        }
    }

    /// With a tier of the scenario points.
    pub open spec fn with_pt(self, e: PtEffect) -> EffectSum {
        EffectSum {
            xunlian: self.xunlian + e.xunlian,
            deyilv: self.deyilv + e.deyilv,
            hint: self.hint + e.hint,
            ..self
        }
    }

    /// With the outcome of a settlement.
    pub open spec fn with_rmj(self, e: RmjEffect) -> EffectSum {
        EffectSum {
            youqing: self.youqing + e.youqing,
            deyilv: self.deyilv + e.deyilv,
            hint: self.hint + e.hint,
            ..self
        }
    }

    /// With what any bowl gives.
    pub open spec fn with_basic(self, e: RamenBasicEffect) -> EffectSum {
        EffectSum {
            xunlian: self.xunlian + e.xunlian,
            youqing: self.youqing + e.youqing,
            fail_rate_drop: self.fail_rate_drop + e.fail_rate_drop,
            friendship: self.friendship + e.friendship,
            status_limit: self.status_limit + e.status_limit,
            hint_special: self.hint_special || e.hint_special,
            ..self
        }
    }

    /// With what the bowl of a region gives, raised by the region bonus.
    pub open spec fn with_region(self, e: RegionEffect, bonus: int) -> EffectSum {
        EffectSum {
            xunlian: self.xunlian + e.xunlian,
            youqing: self.youqing + e.youqing + bonus,
            pt_bonus: self.pt_bonus + e.pt_bonus + bonus,
            ..self
        }
    }

    /// With the super ramen; part of it needs a varied deck.
    pub open spec fn with_finals(self, e: FinalsEffect, varied: bool) -> EffectSum {
        let base = EffectSum { youqing: self.youqing + e.base.youqing, ..self };
        if varied {
            EffectSum {
                pt_bonus: base.pt_bonus + e.extra.pt_bonus,
                pt_limit: base.pt_limit + e.extra.pt_limit,
                clone_count: base.clone_count + e.extra.clone_count,
                ..base
            }
        } else {
            base
        }
    }

    /// Without the friendship bonus, unless the training is a friendship training.
    pub open spec fn at(self, is_shining: bool) -> EffectSum {
        if is_shining {
            self
        } else {
            EffectSum { youqing: 0, ..self }
        }
    }
}

/// The last tier whose points have been reached; the first if none has.
pub open spec fn pt_tier(tiers: Seq<PtEffect>, scenario_pt: int) -> int
    decreases tiers.len(),
{
    if tiers.len() == 0 {
        0
    } else if scenario_pt >= tiers.last().pt_min {
        tiers.len() - 1
    } else {
        pt_tier(tiers.drop_last(), scenario_pt)
    }
}

proof fn lemma_pt_tier(tiers: Seq<PtEffect>, scenario_pt: int)
    requires
        tiers.len() > 0,
    ensures
        0 <= pt_tier(tiers, scenario_pt) < tiers.len(),
    decreases tiers.len(),
{
    if tiers.len() > 1 {
        lemma_pt_tier(tiers.drop_last(), scenario_pt);
    } else {
        assert(pt_tier(tiers.drop_last(), scenario_pt) == 0);
    }
}

/// The tier that the scenario points have reached.
pub fn find_pt_effect_tier(data: &RamenScenarioData, scenario_pt: i32) -> (tier: usize)
    ensures
        tier == pt_tier(data.ramen_pt_effect@, scenario_pt as int),
        data.ramen_pt_effect@.len() > 0 ==> tier < data.ramen_pt_effect@.len(),
{
    let mut tier: usize = 0;
    let mut i: usize = 0;
    let ghost all = data.ramen_pt_effect@;
    while i < data.ramen_pt_effect.len()
        invariant
            i <= all.len(),
            all == data.ramen_pt_effect@,
            tier == pt_tier(all.take(i as int), scenario_pt as int),
            tier == 0 || tier < i,
        decreases all.len() - i,
    {
        if scenario_pt >= data.ramen_pt_effect[i].pt_min {
            tier = i;
        }
        assert(all.take(i as int + 1).drop_last() =~= all.take(i as int));
        i = i + 1;
    }
    assert(all.take(all.len() as int) =~= all);
    tier
}

/// The region bonus: one tier for every three hundred points, five at most; nothing where the
/// table has no entry.
pub open spec fn region_bonus(data: &RamenScenarioData, scenario_pt: int) -> int {
    bonus_at(data, bonus_tier(scenario_pt))
}

/// The tier of the region bonus.
pub open spec fn bonus_tier(scenario_pt: int) -> int {
    if div_trunc(scenario_pt, 300) < 5 {
        div_trunc(scenario_pt, 300)
    } else {
        5
    }
}

/// The tier of the region bonus; none while the points are three hundred below zero or more.
fn calc_region_bonus_tier(year_scenario_pt: i32) -> (tier: Option<usize>)
    ensures
        tier matches Some(t) ==> t == bonus_tier(year_scenario_pt as int),
        tier is None <==> div_trunc(year_scenario_pt as int, 300) < 0,
{
    let t: i32 = (year_scenario_pt / 300).min(5);
    if t < 0 {
        None
    } else {
        Some(t as usize)
    }
}

/// The region bonus.
fn region_bonus_of(data: &RamenScenarioData, scenario_pt: i32) -> (b: i32)
    ensures
        b == region_bonus(data, scenario_pt as int),
{
    match calc_region_bonus_tier(scenario_pt) {
        Some(t) => if t < data.region_bonus.len() {
            data.region_bonus[t]
        } else {
            0
        },
        None => 0,
    }
}

/// A region covers a training.
pub open spec fn covers(e: RegionEffect, train: usize) -> bool {
    e.at_trains@.contains(train as i32)
}

/// Whether a region covers a training.
pub fn covers_train(e: &RegionEffect, train: usize) -> (b: bool)
    ensures
        b == covers(*e, train),
{
    let mut i: usize = 0;
    while i < e.at_trains.len()
        invariant
            i <= e.at_trains@.len(),
            forall|j: int| 0 <= j < i ==> e.at_trains@[j] != train as i32,
        decreases e.at_trains@.len() - i,
    {
        if e.at_trains[i] == train as i32 {
            return true;
        }
        i = i + 1;
    }
    false
}

/// The lasting effect of an earlier settlement, if it has taken place.
pub open spec fn settled(
    e: EffectSum,
    data: &RamenScenarioData,
    results: Seq<bool>,
    year: int,
) -> EffectSum {
    if 0 <= year < results.len() {
        e.with_rmj(
            if results[year] {
                data.ramen_success_effect@[year]
            } else {
                data.ramen_fail_effect@[year]
            },
        )
    } else {
        e
    }
}

/// The effect on a super ramen turn: the highest tiers, the third settlement and the super ramen.
pub open spec fn finals_effect(data: &RamenScenarioData, results: Seq<bool>, varied: bool) -> EffectSum {
    settled(
        EffectSum::nothing().with_pt(data.ramen_pt_effect@.last()).with_basic(
            data.ramen_basic_effect@.last(),
        ),
        data,
        results,
        2,
    ).with_finals(data.finals_effect, varied)
}

/// The lasting effect on an ordinary turn: the tier of the scenario points and the settlement of
/// the year before.
pub open spec fn lasting_effect(
    data: &RamenScenarioData,
    results: Seq<bool>,
    scenario_pt: int,
    year_idx: int,
) -> EffectSum {
    let pt = EffectSum::nothing().with_pt(
        data.ramen_pt_effect@[pt_tier(data.ramen_pt_effect@, scenario_pt)],
    );
    settled(pt, data, results, year_idx - 1)
}

/// The effect on an ordinary turn: the lasting effect, what any bowl gives, and what the bowl of
/// a region gives at the trainings it covers.
pub open spec fn normal_effect(
    data: &RamenScenarioData,
    results: Seq<bool>,
    scenario_pt: int,
    train: usize,
    year_idx: int,
    ramen: Option<usize>,
) -> EffectSum {
    let lasting = lasting_effect(data, results, scenario_pt, year_idx);
    match ramen {
        None => lasting,
        Some(r) => {
            let eaten = if year_idx < data.ramen_basic_effect@.len() {
                lasting.with_basic(data.ramen_basic_effect@[year_idx])
            } else {
                lasting
            };
            let region = data.ramen_region_effect@[r as int];
            if covers(region, train) {
                eaten.with_region(region, region_bonus(data, scenario_pt))
            } else {
                eaten
            }
        },
    }
}

/// The effect of the scenario on a training, for a bowl that is or could be eaten.
pub open spec fn scenario_effect(
    game: &RamenGame,
    data: &RamenScenarioData,
    train: usize,
    is_shining: bool,
    ramen: Option<usize>,
) -> EffectSum {
    if super_turn(game.base.turn as int) {
        finals_effect(data, game.ramen.rmj_results@, game.deck_can_split).at(is_shining)
    } else {
        normal_effect(
            data,
            game.ramen.rmj_results@,
            game.ramen.scenario_pt as int,
            train,
            year_of(game.base.turn as int) - 1,
            ramen,
        ).at(is_shining)
    }
}

/// The effect of the scenario on a training this turn, for the bowl that was eaten.
pub open spec fn effect_now(
    game: &RamenGame,
    data: &RamenScenarioData,
    train: usize,
    is_shining: bool,
) -> EffectSum {
    scenario_effect(game, data, train, is_shining, game.ramen.current_ramen)
}

/// The bowl exists.
pub open spec fn bowl_known(data: &RamenScenarioData, ramen: Option<usize>) -> bool {
    ramen matches Some(r) ==> r < data.ramen_region_effect@.len()
}

impl RamenTrainingEffect {
    fn add_pt(&mut self, e: &PtEffect)
        requires
            old(self)@.with_pt(*e).in_range(),
        ensures
            final(self)@ == old(self)@.with_pt(*e),
    {
        self.xunlian = self.xunlian + e.xunlian;
        self.deyilv = self.deyilv + e.deyilv;
        self.hint = self.hint + e.hint;
    }

    fn add_rmj(&mut self, e: &RmjEffect)
        requires
            old(self)@.with_rmj(*e).in_range(),
        ensures
            final(self)@ == old(self)@.with_rmj(*e),
    {
        self.youqing = self.youqing + e.youqing;
        self.deyilv = self.deyilv + e.deyilv;
        self.hint = self.hint + e.hint;
    }

    fn add_basic(&mut self, e: &RamenBasicEffect)
        requires
            old(self)@.with_basic(*e).in_range(),
        ensures
            final(self)@ == old(self)@.with_basic(*e),
    {
        self.xunlian = self.xunlian + e.xunlian;
        self.youqing = self.youqing + e.youqing;
        self.fail_rate_drop = self.fail_rate_drop + e.fail_rate_drop;
        self.friendship = self.friendship + e.friendship;
        self.status_limit = self.status_limit + e.status_limit;
        self.hint_special = self.hint_special || e.hint_special;
    }
}

/// The region bonus at a tier; nothing where the table has no entry.
pub open spec fn bonus_at(data: &RamenScenarioData, tier: int) -> int {
    if 0 <= tier < data.region_bonus@.len() {
        data.region_bonus@[tier] as int
    } else {
        0
    }
}

/// What a tier of the scenario points, a settlement, the bowl of a year, and a region with a tier of
/// the region bonus give together.
pub open spec fn table_sum(
    data: &RamenScenarioData,
    tier: int,
    rmj: Option<(int, bool)>,
    basic: Option<int>,
    region: Option<(int, int)>,
) -> EffectSum {
    let e0 = EffectSum::nothing().with_pt(data.ramen_pt_effect@[tier]);
    let e1 = match rmj {
        Some((year, success)) => e0.with_rmj(
            if success {
                data.ramen_success_effect@[year]
            } else {
                data.ramen_fail_effect@[year]
            },
        ),
        None => e0,
    };
    let e2 = match basic {
        Some(b) => e1.with_basic(data.ramen_basic_effect@[b]),
        None => e1,
    };
    match region {
        Some((r, t)) => e2.with_region(data.ramen_region_effect@[r], bonus_at(data, t)),
        None => e2,
    }
}

/// The tables have the entries.
pub open spec fn in_tables(
    data: &RamenScenarioData,
    tier: int,
    rmj: Option<(int, bool)>,
    basic: Option<int>,
    region: Option<(int, int)>,
) -> bool {
    &&& 0 <= tier < data.ramen_pt_effect@.len()
    &&& rmj matches Some(y) ==> 0 <= y.0 < 3
    &&& basic matches Some(b) ==> 0 <= b < data.ramen_basic_effect@.len()
    &&& region matches Some(r) ==> 0 <= r.0 < data.ramen_region_effect@.len()
}

/// What a region gives can be raised by the region bonus at a tier.
pub open spec fn region_fits(data: &RamenScenarioData, r: int, t: int) -> bool {
    let e = data.ramen_region_effect@[r];
    &&& i32::MIN <= e.youqing + bonus_at(data, t) <= i32::MAX
    &&& i32::MIN <= e.pt_bonus + bonus_at(data, t) <= i32::MAX
}

/// The effect on a super ramen turn, given the settlement of the third year, if there is one.
pub open spec fn finals_sum(
    data: &RamenScenarioData,
    rmj: Option<(int, bool)>,
    varied: bool,
) -> EffectSum {
    table_sum(
        data,
        data.ramen_pt_effect@.len() - 1,
        rmj,
        Some(data.ramen_basic_effect@.len() - 1),
        None,
    ).with_finals(data.finals_effect, varied)
}

/// Whatever entries of the tables take effect together add up to machine integers.
pub open spec fn sums_fit(data: &RamenScenarioData) -> bool {
    &&& forall|tier: int, rmj: Option<(int, bool)>, basic: Option<int>, region: Option<(int, int)>|
        in_tables(data, tier, rmj, basic, region) ==> (#[trigger] table_sum(
            data,
            tier,
            rmj,
            basic,
            region,
        )).in_range()
    &&& forall|r: int, t: int|
        0 <= r < data.ramen_region_effect@.len() ==> #[trigger] region_fits(data, r, t)
    &&& forall|rmj: Option<(int, bool)>, varied: bool|
        (rmj matches Some(y) ==> y.0 == 2) ==> (#[trigger] finals_sum(data, rmj, varied)).in_range()
}

/// The effect on a super ramen turn.
fn calc_finals_effect(game: &RamenGame, data: &RamenScenarioData) -> (e: RamenTrainingEffect)
    requires
        data.complete(),
    ensures
        e@ == finals_effect(data, game.ramen.rmj_results@, game.deck_can_split),
{
    let mut effect: RamenTrainingEffect = RamenTrainingEffect::default();
    let last_pt: usize = data.ramen_pt_effect.len() - 1;
    let last_basic: usize = data.ramen_basic_effect.len() - 1;
    let ghost rmj: Option<(int, bool)> = if game.ramen.rmj_results@.len() > 2 {
        Some((2int, game.ramen.rmj_results@[2]))
    } else {
        None
    };
    proof {
        let (t, b) = (last_pt as int, last_basic as int);
        assert(table_sum(data, t, None, None, None).in_range());
        assert(table_sum(data, t, None, Some(b), None).in_range());
        assert(table_sum(data, t, rmj, Some(b), None).in_range());
        assert(finals_sum(data, rmj, game.deck_can_split).in_range());
    }
    effect.add_pt(&data.ramen_pt_effect[last_pt]);
    effect.add_basic(&data.ramen_basic_effect[last_basic]);
    if game.ramen.rmj_results.len() > 2 {
        if game.ramen.rmj_results[2] {
            effect.add_rmj(&data.ramen_success_effect[2]);
        } else {
            effect.add_rmj(&data.ramen_fail_effect[2]);
        }
    }
    effect.youqing = effect.youqing + data.finals_effect.base.youqing;
    if game.deck_can_split {
        effect.pt_bonus = effect.pt_bonus + data.finals_effect.extra.pt_bonus;
        effect.pt_limit = effect.pt_limit + data.finals_effect.extra.pt_limit;
        effect.clone_count = effect.clone_count + data.finals_effect.extra.clone_count;
    }
    effect
}

/// The lasting effect on an ordinary turn.
pub fn calc_lasting_effect(game: &RamenGame, data: &RamenScenarioData, year_idx: usize) -> (e:
    RamenTrainingEffect)
    requires
        data.complete(),
        year_idx < 3,
    ensures
        e@ == lasting_effect(
            data,
            game.ramen.rmj_results@,
            game.ramen.scenario_pt as int,
            year_idx as int,
        ),
{
    let mut effect: RamenTrainingEffect = RamenTrainingEffect::default();
    let tier: usize = find_pt_effect_tier(data, game.ramen.scenario_pt);
    proof {
        let y = year_idx - 1;
        assert(table_sum(data, tier as int, None, None, None).in_range());
        if 0 <= y < game.ramen.rmj_results@.len() {
            let rmj = Some((y, game.ramen.rmj_results@[y]));
            assert(table_sum(data, tier as int, rmj, None, None).in_range());
        }
    }
    effect.add_pt(&data.ramen_pt_effect[tier]);
    if year_idx >= 1 {
        let prev_idx: usize = year_idx - 1;
        if prev_idx < game.ramen.rmj_results.len() {
            if game.ramen.rmj_results[prev_idx] {
                effect.add_rmj(&data.ramen_success_effect[prev_idx]);
            } else {
                effect.add_rmj(&data.ramen_fail_effect[prev_idx]);
            }
        }
    }
    effect
}

/// The effect on an ordinary turn.
fn calc_normal_effect(
    game: &RamenGame,
    data: &RamenScenarioData,
    train: usize,
    year_idx: usize,
    ramen: Option<usize>,
) -> (e: RamenTrainingEffect)
    requires
        data.complete(),
        year_idx < 3,
        bowl_known(data, ramen),
    ensures
        e@ == normal_effect(
            data,
            game.ramen.rmj_results@,
            game.ramen.scenario_pt as int,
            train,
            year_idx as int,
            ramen,
        ),
{
    let mut effect: RamenTrainingEffect = calc_lasting_effect(game, data, year_idx);
    let ghost tier = pt_tier(data.ramen_pt_effect@, game.ramen.scenario_pt as int);
    let ghost rmj: Option<(int, bool)> = if 0 <= year_idx - 1 < game.ramen.rmj_results@.len() {
        Some((year_idx - 1, game.ramen.rmj_results@[year_idx - 1]))
    } else {
        None
    };
    let ghost basic: Option<int> = if year_idx < data.ramen_basic_effect@.len() {
        Some(year_idx as int)
    } else {
        None
    };
    proof {
        lemma_pt_tier(data.ramen_pt_effect@, game.ramen.scenario_pt as int);
        assert(effect@ == table_sum(data, tier, rmj, None, None));
        assert(table_sum(data, tier, rmj, basic, None).in_range());
    }
    if let Some(ramen_idx) = ramen {
        if year_idx < data.ramen_basic_effect.len() {
            effect.add_basic(&data.ramen_basic_effect[year_idx]);
        }
        let region: &RegionEffect = &data.ramen_region_effect[ramen_idx];
        if covers_train(region, train) {
            let bonus: i32 = region_bonus_of(data, game.ramen.scenario_pt);
            proof {
                let t = bonus_tier(game.ramen.scenario_pt as int);
                assert(bonus == bonus_at(data, t));
                assert(region_fits(data, ramen_idx as int, t));
                assert(table_sum(data, tier, rmj, basic, Some((ramen_idx as int, t))).in_range());
            }
            effect.xunlian = effect.xunlian + region.xunlian;
            effect.youqing = effect.youqing + (region.youqing + bonus);
            effect.pt_bonus = effect.pt_bonus + (region.pt_bonus + bonus);
        }
    }
    effect
}

/// The effect of the scenario on a training this turn.
pub fn calc_ramen_training_effect(
    game: &RamenGame,
    data: &RamenScenarioData,
    train: usize,
    is_shining: bool,
) -> (e: RamenTrainingEffect)
    requires
        data.complete(),
        bowl_known(data, game.ramen.current_ramen),
    ensures
        e@ == scenario_effect(game, data, train, is_shining, game.ramen.current_ramen),
        e@ == effect_now(game, data, train, is_shining),
{
    calc_ramen_training_effect_with_ramen(game, data, train, is_shining, game.ramen.current_ramen)
}

/// The effect of the scenario on a training, if a certain bowl were eaten.
pub fn calc_ramen_training_effect_with_ramen(
    game: &RamenGame,
    data: &RamenScenarioData,
    train: usize,
    is_shining: bool,
    ramen: Option<usize>,
) -> (e: RamenTrainingEffect)
    requires
        data.complete(),
        bowl_known(data, ramen),
    ensures
        e@ == scenario_effect(game, data, train, is_shining, ramen),
{
    let mut effect: RamenTrainingEffect = if game.is_super_ramen_turn() {
        calc_finals_effect(game, data)
    } else {
        calc_normal_effect(game, data, train, game.year_idx(), ramen)
    };
    if !is_shining {
        effect.youqing = 0;
    }
    effect
}

/// The caps of a training are machine integers.
pub open spec fn caps_fit(e: EffectSum) -> bool {
    &&& 200 + e.status_limit <= i32::MAX
    &&& 200 + e.status_limit + e.pt_limit <= i32::MAX
}

/// The speciality rate that the scenario adds to that of a card.
pub open spec fn scenario_deyilv(game: &RamenGame, data: &RamenScenarioData) -> int {
    if super_turn(game.base.turn as int) {
        finals_effect(data, game.ramen.rmj_results@, game.deck_can_split).deyilv
    } else {
        lasting_effect(
            data,
            game.ramen.rmj_results@,
            game.ramen.scenario_pt as int,
            year_of(game.base.turn as int) - 1,
        ).deyilv
    }
}

/// The speciality rate that the scenario adds to that of a card.
pub fn calc_scenario_deyilv(game: &RamenGame, data: &RamenScenarioData) -> (d: i32)
    requires
        data.complete(),
    ensures
        d == scenario_deyilv(game, data),
{
    if game.is_super_ramen_turn() {
        calc_finals_effect(game, data).deyilv
    } else {
        calc_lasting_effect(game, data, game.year_idx()).deyilv
    }
}

/// The speciality rate of the scenario is the one that every training of the turn shows, whatever
/// is eaten.
pub proof fn law_speciality_rate_is_shared(
    game: &RamenGame,
    data: &RamenScenarioData,
    train: usize,
    is_shining: bool,
    ramen: Option<usize>,
)
    ensures
        scenario_effect(game, data, train, is_shining, ramen).deyilv == scenario_deyilv(game, data),
{
}

/// A bowl helps only at the trainings that its region covers, but for what every bowl gives.
pub proof fn law_region_helps_only_where_it_covers(
    game: &RamenGame,
    data: &RamenScenarioData,
    covered: usize,
    other: usize,
    ramen: usize,
)
    requires
        !super_turn(game.base.turn as int),
        covers(data.ramen_region_effect@[ramen as int], covered),
        !covers(data.ramen_region_effect@[ramen as int], other),
    ensures
        ({
            let region = data.ramen_region_effect@[ramen as int];
            let bonus = region_bonus(data, game.ramen.scenario_pt as int);
            let here = scenario_effect(game, data, covered, true, Some(ramen));
            let there = scenario_effect(game, data, other, true, Some(ramen));
            here == there.with_region(region, bonus)
        }),
{
}

/// On a super ramen turn neither the training nor a bowl matters.
pub proof fn law_super_ramen_ignores_bowls(
    game: &RamenGame,
    data: &RamenScenarioData,
    train: usize,
    other: usize,
    is_shining: bool,
    ramen: Option<usize>,
)
    requires
        super_turn(game.base.turn as int),
    ensures
        scenario_effect(game, data, train, is_shining, ramen) == scenario_effect(
            game,
            data,
            other,
            is_shining,
            None,
        ),
{
}

/// Without a friendship training there is no friendship bonus.
pub proof fn law_no_friendship_bonus_without_shine(
    game: &RamenGame,
    data: &RamenScenarioData,
    train: usize,
    ramen: Option<usize>,
)
    ensures
        scenario_effect(game, data, train, false, ramen).youqing == 0,
{
}

/// The parts of an effect that are shown, each with its label; what is zero is left out.
pub open spec fn effect_parts(e: EffectSum) -> Seq<Seq<char>> {
    part("训+"@, e.xunlian) + part("友情+"@, e.youqing) + part("得意+"@, e.deyilv) + part(
        "失败率-"@,
        e.fail_rate_drop,
    ) + part("羁绊+"@, e.friendship) + part("上限+"@, e.status_limit) + part("PT+"@, e.pt_bonus)
        + part("PT上限+"@, e.pt_limit) + part("hint+"@, e.hint) + part("分身+"@, e.clone_count)
        + if e.hint_special {
        seq!["hint全卡"@]
    } else {
        Seq::empty()
    }
}

/// The parts of an effect that are shown.
pub fn format_ramen_effect_parts(eff: &RamenTrainingEffect) -> (parts: Vec<String>)
    ensures
        texts(parts@) == effect_parts(eff@),
{
    let mut parts: Vec<String> = Vec::new();
    assert(texts(parts@) =~= Seq::<Seq<char>>::empty());
    push_part(&mut parts, "训+", eff.xunlian);
    assert(texts(parts@) =~= part("训+"@, eff.xunlian as int));
    push_part(&mut parts, "友情+", eff.youqing);
    push_part(&mut parts, "得意+", eff.deyilv);
    push_part(&mut parts, "失败率-", eff.fail_rate_drop);
    push_part(&mut parts, "羁绊+", eff.friendship);
    push_part(&mut parts, "上限+", eff.status_limit);
    push_part(&mut parts, "PT+", eff.pt_bonus);
    push_part(&mut parts, "PT上限+", eff.pt_limit);
    push_part(&mut parts, "hint+", eff.hint);
    push_part(&mut parts, "分身+", eff.clone_count);
    let ghost before = texts(parts@);
    if eff.hint_special {
        parts.push("hint全卡".to_owned());
        assert(texts(parts@) =~= before + seq!["hint全卡"@]);
    } else {
        assert(texts(parts@) =~= before + Seq::<Seq<char>>::empty());
    }
    parts
}

/// A value raised by three percentages, rounded towards zero and clipped to machine integers.
pub open spec fn raised(value: int, a: int, b: int, c: int) -> int {
    clip_i32(div_trunc(value * (100 + a) * (100 + b) * (100 + c), 1_000_000))
}

proof fn lemma_product_bound(v: int, a: int, b: int, c: int)
    requires
        -2_200_000_000 <= v <= 2_200_000_000,
        -2_200_000_000 <= a <= 2_200_000_000,
        -2_200_000_000 <= b <= 2_200_000_000,
        -2_200_000_000 <= c <= 2_200_000_000,
    ensures
        -4_840_000_000_000_000_000 <= v * a <= 4_840_000_000_000_000_000,
        -10_648_000_000_000_000_000_000_000_000 <= v * a * b <= 10_648_000_000_000_000_000_000_000_000,
        -23_425_600_000_000_000_000_000_000_000_000_000_000 <= v * a * b * c
            <= 23_425_600_000_000_000_000_000_000_000_000_000_000,
{
    let k: int = 2_200_000_000;
    let va = v * a;
    assert(-k * k <= va <= k * k) by (nonlinear_arith)
        requires
            -k <= v <= k,
            -k <= a <= k,
            va == v * a,
            k >= 0,
    ;
    let vab = va * b;
    let m: int = 4_840_000_000_000_000_000;
    assert(-m * k <= vab <= m * k) by (nonlinear_arith)
        requires
            -m <= va <= m,
            -k <= b <= k,
            vab == va * b,
            k >= 0,
            m >= 0,
    ;
    let n: int = 10_648_000_000_000_000_000_000_000_000;
    let vabc = vab * c;
    assert(-n * k <= vabc <= n * k) by (nonlinear_arith)
        requires
            -n <= vab <= n,
            -k <= c <= k,
            vabc == vab * c,
            k >= 0,
            n >= 0,
    ;
}

/// Raises a value by three percentages.
fn raise(value: i32, a: i32, b: i32, c: i32) -> (r: i32)
    ensures
        r == raised(value as int, a as int, b as int, c as int),
{
    proof {
        lemma_product_bound(value as int, 100 + a, 100 + b, 100 + c);
    }
    let x: i128 = 100 + a as i128;
    let y: i128 = 100 + b as i128;
    let z: i128 = 100 + c as i128;
    div_trunc_clip(value as i128 * x * y * z, 1_000_000)
}

/// The smaller of two numbers.
pub open spec fn lesser(a: int, b: int) -> int {
    if a <= b {
        a
    } else {
        b
    }
}

/// What a training gives in the end: the value without the scenario, a hundred at most, and what
/// the percentages add to it, from zero up to the cap.
pub open spec fn capped_rise(value: int, raised: int, cap: int) -> int {
    let lower = lesser(value, 100);
    let rise = lesser(raised - lower, cap);
    if rise < 0 {
        lower
    } else {
        lower + rise
    }
}

/// Applies an upper value to a lower one.
fn add_capped_rise(lower: i32, raised: i32, cap: i64) -> (r: i32)
    requires
        lower <= 100,
        100 + cap <= i32::MAX,
    ensures
        r == capped_rise(lower as int, raised as int, cap as int),
{
    let rise: i64 = raised as i64 - lower as i64;
    let rise: i64 = if rise <= cap {
        rise
    } else {
        cap
    };
    if rise < 0 {
        lower
    } else {
        (lower as i64 + rise) as i32
    }
}

/// What the scenario makes of a training's status values and skill points. Attributes that the
/// training does not raise stay as they are.
pub open spec fn applied(status: Seq<i32>, e: EffectSum) -> Seq<int> {
    Seq::new(
        6,
        |i: int|
            {
                let lower = lesser(status[i] as int, 100);
                if i == 5 {
                    capped_rise(
                        lower,
                        raised(lower, e.xunlian, e.youqing, e.pt_bonus),
                        100 + e.status_limit + e.pt_limit,
                    )
                } else if lower > 0 {
                    capped_rise(
                        lower,
                        raised(lower, e.xunlian, e.youqing, 0),
                        100 + e.status_limit,
                    )
                } else {
                    lower
                }
            },
    )
}

/// Applies the scenario to a training's status values and skill points.
pub fn apply_ramen_training_effect(status: [i32; 6], effect: &RamenTrainingEffect) -> (out: [i32; 6])
    requires
        caps_fit(effect@),
    ensures
        forall|i: int| 0 <= i < 6 ==> #[trigger] out@[i] == applied(status@, effect@)[i],
{
    let mut out: [i32; 6] = status;
    let mut i: usize = 0;
    let status_cap: i64 = 100 + effect.status_limit as i64;
    let pt_cap: i64 = 100 + effect.status_limit as i64 + effect.pt_limit as i64;
    while i < 5
        invariant
            i <= 5,
            100 + status_cap <= i32::MAX,
            status_cap == 100 + effect.status_limit,
            forall|j: int| 0 <= j < i ==> #[trigger] out@[j] == applied(status@, effect@)[j],
            forall|j: int| i <= j < 6 ==> #[trigger] out@[j] == status@[j],
        decreases 5 - i,
    {
        let lower: i32 = status[i].min(100);
        let value: i32 = if lower > 0 {
            add_capped_rise(lower, raise(lower, effect.xunlian, effect.youqing, 0), status_cap)
        } else {
            lower
        };
        out[i] = value;
        i = i + 1;
    }
    let lower: i32 = status[5].min(100);
    out[5] = add_capped_rise(
        lower,
        raise(lower, effect.xunlian, effect.youqing, effect.pt_bonus),
        pt_cap,
    );
    out
}

/// What the scenario makes of one value of a training, as a status value and as skill points: the
/// raised value, but no more than the cap above the value without the scenario.
pub fn apply_ramen_training_value(lower_value: i32, effect: &RamenTrainingEffect, _train: usize) -> (r:
    (i32, i32))
    requires
        i32::MIN <= lesser(lower_value as int, 100) + 100 + effect.status_limit <= i32::MAX,
        i32::MIN <= lesser(lower_value as int, 100) + 100 + effect.status_limit + effect.pt_limit
            <= i32::MAX,
    ensures
        ({
            let lower = lesser(lower_value as int, 100);
            let e = effect@;
            &&& r.0 == lesser(raised(lower, e.xunlian, e.youqing, 0), lower + 100 + e.status_limit)
            &&& r.1 == lesser(
                raised(lower, e.xunlian, e.youqing, e.pt_bonus),
                lower + 100 + e.status_limit + e.pt_limit,
            )
        }),
{
    let lower: i32 = lower_value.min(100);
    let status_top: i64 = lower as i64 + 100 + effect.status_limit as i64;
    let pt_top: i64 = status_top + effect.pt_limit as i64;
    let status: i32 = raise(lower, effect.xunlian, effect.youqing, 0);
    let pt: i32 = raise(lower, effect.xunlian, effect.youqing, effect.pt_bonus);
    (status.min(status_top as i32), pt.min(pt_top as i32))
}

/// The scenario never lowers what a training gives, but for the limit of a hundred, and never adds
/// more than the caps allow.
pub proof fn law_scenario_only_adds(status: Seq<i32>, e: EffectSum, i: int)
    requires
        0 <= i < 6,
        status.len() == 6,
        0 <= e.status_limit,
        0 <= e.pt_limit,
    ensures
        lesser(status[i] as int, 100) <= applied(status, e)[i] <= lesser(status[i] as int, 100) + 100
            + e.status_limit + e.pt_limit,
{
}

/// A single value raised as a status value comes out as in the whole training, wherever the
/// percentages do not lower it.
pub proof fn law_value_matches_training(status: Seq<i32>, e: EffectSum, i: int)
    requires
        0 <= i < 5,
        status.len() == 6,
        status[i] > 0,
        0 <= 100 + e.status_limit,
        lesser(status[i] as int, 100) <= raised(
            lesser(status[i] as int, 100),
            e.xunlian,
            e.youqing,
            0,
        ),
    ensures
        applied(status, e)[i] == lesser(
            raised(lesser(status[i] as int, 100), e.xunlian, e.youqing, 0),
            lesser(status[i] as int, 100) + 100 + e.status_limit,
        ),
{
}

/// A tier of the scenario points holds from its points on until those of a later tier are reached.
pub proof fn law_tier_is_the_last_one_reached(tiers: Seq<PtEffect>, scenario_pt: int, k: int)
    requires
        0 <= k < tiers.len(),
        scenario_pt >= tiers[k].pt_min || k == 0,
        forall|j: int| k < j < tiers.len() ==> scenario_pt < (#[trigger] tiers[j]).pt_min,
    ensures
        pt_tier(tiers, scenario_pt) == k,
    decreases tiers.len(),
{
    if tiers.len() - 1 > k {
        assert(scenario_pt < tiers[tiers.len() - 1].pt_min);
        assert forall|j: int| k < j < tiers.drop_last().len() implies scenario_pt < (
        #[trigger] tiers.drop_last()[j]).pt_min by {
            assert(tiers.drop_last()[j] == tiers[j]);
        }
        law_tier_is_the_last_one_reached(tiers.drop_last(), scenario_pt, k);
    } else if scenario_pt < tiers.last().pt_min {
        assert(k == 0);
        assert(pt_tier(tiers.drop_last(), scenario_pt) == 0);
    }
}

/// Before anything is eaten, the first year (up to turn twenty-three) gives what the tier gives; the
/// second year (up to turn forty-seven) adds the first settlement, and the third (up to turn
/// seventy-one) the second settlement. A settlement counts by its own outcome, and only in the year
/// that follows it.
pub proof fn law_settlement_lasts_one_year(
    game: &RamenGame,
    data: &RamenScenarioData,
    train: usize,
    k: int,
)
    requires
        game.base.turn <= 71,
        24 <= game.base.turn ==> game.ramen.rmj_results@.len() >= 1,
        48 <= game.base.turn ==> game.ramen.rmj_results@.len() >= 2,
        0 <= k < data.ramen_pt_effect@.len(),
        game.ramen.scenario_pt >= data.ramen_pt_effect@[k].pt_min,
        forall|j: int|
            k < j < data.ramen_pt_effect@.len() ==> game.ramen.scenario_pt < (
            #[trigger] data.ramen_pt_effect@[j]).pt_min,
    ensures
        ({
            let e = scenario_effect(game, data, train, true, None);
            let tier = data.ramen_pt_effect@[k];
            &&& e.xunlian == tier.xunlian
            &&& e.pt_bonus == 0 && e.status_limit == 0 && e.pt_limit == 0 && e.fail_rate_drop == 0
            &&& e.friendship == 0 && e.clone_count == 0 && !e.hint_special
            &&& game.base.turn <= 23 ==> {
                &&& e.youqing == 0
                &&& e.deyilv == tier.deyilv
                &&& e.hint == tier.hint
            }
            &&& 24 <= game.base.turn <= 47 ==> {
                let s = if game.ramen.rmj_results@[0] {
                    data.ramen_success_effect@[0]
                } else {
                    data.ramen_fail_effect@[0]
                };
                &&& e.youqing == s.youqing
                &&& e.deyilv == tier.deyilv + s.deyilv
                &&& e.hint == tier.hint + s.hint
            }
            &&& 48 <= game.base.turn <= 71 ==> {
                let s = if game.ramen.rmj_results@[1] {
                    data.ramen_success_effect@[1]
                } else {
                    data.ramen_fail_effect@[1]
                };
                &&& e.youqing == s.youqing
                &&& e.deyilv == tier.deyilv + s.deyilv
                &&& e.hint == tier.hint + s.hint
            }
        }),
{
    law_tier_is_the_last_one_reached(
        data.ramen_pt_effect@,
        game.ramen.scenario_pt as int,
        k,
    );
}

/// In the third year the first settlement no longer matters, whatever is eaten: careers that differ
/// in its outcome alone have the same effect. On super ramen turns only the third one does.
pub proof fn law_older_settlements_are_forgotten(
    game: &RamenGame,
    other: &RamenGame,
    data: &RamenScenarioData,
    train: usize,
    is_shining: bool,
    ramen: Option<usize>,
)
    requires
        48 <= game.base.turn <= 77,
        other.base.turn == game.base.turn,
        other.ramen.scenario_pt == game.ramen.scenario_pt,
        other.deck_can_split == game.deck_can_split,
        other.ramen.rmj_results@.len() == game.ramen.rmj_results@.len(),
        game.base.turn <= 71 ==> game.ramen.rmj_results@.len() >= 2 && other.ramen.rmj_results@[1]
            == game.ramen.rmj_results@[1],
        game.base.turn >= 72 ==> game.ramen.rmj_results@.len() >= 3 && other.ramen.rmj_results@[2]
            == game.ramen.rmj_results@[2],
    ensures
        scenario_effect(other, data, train, is_shining, ramen) == scenario_effect(
            game,
            data,
            train,
            is_shining,
            ramen,
        ),
        scenario_deyilv(other, data) == scenario_deyilv(game, data),
{
}

/// What a bowl adds on an ordinary turn: at every training what any bowl of the year gives, and at
/// the trainings that its region covers the region's numbers with the region bonus, one tier for
/// every three hundred points and the sixth at most.
pub proof fn law_bowl_adds_its_numbers(
    game: &RamenGame,
    data: &RamenScenarioData,
    train: usize,
    ramen: usize,
    y: int,
    tier: int,
)
    requires
        game.base.turn <= 71,
        y == if game.base.turn <= 23 {
            0int
        } else if game.base.turn <= 47 {
            1
        } else {
            2
        },
        y < data.ramen_basic_effect@.len(),
        ramen < data.ramen_region_effect@.len(),
        0 <= tier <= 5,
        tier < data.region_bonus@.len(),
        tier < 5 ==> 300 * tier <= game.ramen.scenario_pt < 300 * (tier + 1),
        tier == 5 ==> 1500 <= game.ramen.scenario_pt,
    ensures
        ({
            let none = scenario_effect(game, data, train, true, None);
            let e = scenario_effect(game, data, train, true, Some(ramen));
            let bowl = data.ramen_basic_effect@[y];
            let region = data.ramen_region_effect@[ramen as int];
            let bonus = data.region_bonus@[tier];
            let covered = exists|i: int|
                0 <= i < region.at_trains@.len() && #[trigger] region.at_trains@[i] == train as i32;
            &&& e.xunlian - none.xunlian == bowl.xunlian + (if covered {
                region.xunlian as int
            } else {
                0
            })
            &&& e.youqing - none.youqing == bowl.youqing + (if covered {
                region.youqing + bonus
            } else {
                0
            })
            &&& e.pt_bonus - none.pt_bonus == (if covered {
                region.pt_bonus + bonus
            } else {
                0
            })
            &&& e.fail_rate_drop - none.fail_rate_drop == bowl.fail_rate_drop
            &&& e.friendship - none.friendship == bowl.friendship
            &&& e.status_limit - none.status_limit == bowl.status_limit
            &&& e.hint_special == (none.hint_special || bowl.hint_special)
            &&& e.deyilv == none.deyilv
            &&& e.hint == none.hint
            &&& e.pt_limit == none.pt_limit
            &&& e.clone_count == none.clone_count
        }),
{
    let pt = game.ramen.scenario_pt as int;
    assert(bonus_tier(pt) == tier) by {
        if tier < 5 {
            vstd::arithmetic::div_mod::lemma_fundamental_div_mod_converse(
                pt,
                300,
                tier,
                pt - 300 * tier,
            );
        } else {
            assert(pt / 300 >= 5) by (nonlinear_arith)
                requires
                    pt >= 1500,
            ;
        }
    }
    let region = data.ramen_region_effect@[ramen as int];
    if covers(region, train) {
        let i = choose|i: int|
            0 <= i < region.at_trains@.len() && region.at_trains@[i] == train as i32;
        assert(region.at_trains@[i] == train as i32);
    }
}

/// The super ramen on turns seventy-two to seventy-seven: the last tier and the last bowl, the third
/// settlement and the final bonus; skill points and clones only with a varied deck.
pub proof fn law_super_ramen_numbers(
    game: &RamenGame,
    data: &RamenScenarioData,
    train: usize,
    ramen: Option<usize>,
)
    requires
        72 <= game.base.turn <= 77,
        data.ramen_pt_effect@.len() > 0,
        data.ramen_basic_effect@.len() > 0,
        game.ramen.rmj_results@.len() >= 3,
    ensures
        ({
            let e = scenario_effect(game, data, train, true, ramen);
            let tier = data.ramen_pt_effect@[data.ramen_pt_effect@.len() - 1];
            let bowl = data.ramen_basic_effect@[data.ramen_basic_effect@.len() - 1];
            let s = if game.ramen.rmj_results@[2] {
                data.ramen_success_effect@[2]
            } else {
                data.ramen_fail_effect@[2]
            };
            let finals = data.finals_effect;
            &&& e.xunlian == tier.xunlian + bowl.xunlian
            &&& e.youqing == bowl.youqing + s.youqing + finals.base.youqing
            &&& e.deyilv == tier.deyilv + s.deyilv
            &&& e.hint == tier.hint + s.hint
            &&& e.fail_rate_drop == bowl.fail_rate_drop
            &&& e.friendship == bowl.friendship
            &&& e.status_limit == bowl.status_limit
            &&& e.hint_special == bowl.hint_special
            &&& game.deck_can_split ==> e.pt_bonus == finals.extra.pt_bonus && e.pt_limit
                == finals.extra.pt_limit && e.clone_count == finals.extra.clone_count
            &&& !game.deck_can_split ==> e.pt_bonus == 0 && e.pt_limit == 0 && e.clone_count == 0
        }),
{
}

/// Only the friendship bonus depends on whether a training is a friendship training; where it is, the
/// whole bonus counts.
pub proof fn law_shine_brings_the_friendship_bonus(
    game: &RamenGame,
    data: &RamenScenarioData,
    train: usize,
    ramen: Option<usize>,
)
    ensures
        ({
            let with = scenario_effect(game, data, train, true, ramen);
            let without = scenario_effect(game, data, train, false, ramen);
            &&& without.youqing == 0
            &&& with == (EffectSum { youqing: with.youqing, ..without })
            &&& 72 <= game.base.turn <= 77 ==> with.youqing == finals_effect(
                data,
                game.ramen.rmj_results@,
                game.deck_can_split,
            ).youqing
        }),
{
}

/// Without percentages the scenario leaves a training's values as they are, up to a hundred; what the
/// training does not raise is never raised.
pub proof fn law_no_percentages_no_rise(status: Seq<i32>, e: EffectSum, i: int)
    requires
        0 <= i < 6,
        status.len() == 6,
        e.xunlian == 0,
        e.youqing == 0,
        e.pt_bonus == 0,
        e.status_limit >= 0,
        e.pt_limit >= 0,
    ensures
        status[i] <= 100 ==> applied(status, e)[i] == status[i],
        status[i] > 100 ==> applied(status, e)[i] == 100,
{
    let lower = lesser(status[i] as int, 100);
    lemma_plain_raise(lower);
}

proof fn lemma_plain_raise(v: int)
    requires
        i32::MIN <= v <= 100,
    ensures
        raised(v, 0, 0, 0) == v,
{
    let (a, b, c) = (0int, 0int, 0int);
    assert(v * (100 + a) * (100 + b) * (100 + c) == v * 1_000_000) by (nonlinear_arith)
        requires
            a == 0,
            b == 0,
            c == 0,
    ;
    if v >= 0 {
        vstd::arithmetic::div_mod::lemma_fundamental_div_mod_converse(
            v * 1_000_000,
            1_000_000,
            v,
            0,
        );
    } else {
        vstd::arithmetic::div_mod::lemma_fundamental_div_mod_converse(
            (-v) * 1_000_000,
            1_000_000,
            -v,
            0,
        );
    }
}

/// Percentages work as factors: a status value of a training comes out as the value times the three
/// factors over a hundred each, rounded down, as long as it stays below the cap; skill points have
/// their own factor, status values do not.
pub proof fn law_percentages_multiply(status: Seq<i32>, e: EffectSum, i: int)
    requires
        0 <= i < 6,
        status.len() == 6,
        0 < status[i] <= 100,
        0 <= e.xunlian <= 1000,
        0 <= e.youqing <= 1000,
        0 <= e.pt_bonus <= 1000,
        e.status_limit >= 0,
        e.pt_limit >= 0,
    ensures
        ({
            let out = applied(status, e)[i];
            let own = if i == 5 {
                100 + e.pt_bonus
            } else {
                100
            };
            let product = status[i] * (100 + e.xunlian) * (100 + e.youqing) * own;
            let cap = if i == 5 {
                100 + e.status_limit + e.pt_limit
            } else {
                100 + e.status_limit
            };
            &&& status[i] <= out
            &&& out - status[i] <= cap
            &&& out - status[i] < cap ==> out * 1_000_000 <= product < (out + 1) * 1_000_000
            &&& product >= (status[i] + cap) * 1_000_000 ==> out == status[i] + cap
        }),
{
    let v = status[i] as int;
    let (x, y) = (100 + e.xunlian, 100 + e.youqing);
    let z = if i == 5 {
        100 + e.pt_bonus
    } else {
        100
    };
    let p = v * x * y * z;
    lemma_growth(v, x, y, z);
    let q = p / 1_000_000;
    assert(0 <= p <= 133_100_000_000 && v * 1_000_000 <= p);
    vstd::arithmetic::div_mod::lemma_fundamental_div_mod(p, 1_000_000);
    assert(q * 1_000_000 <= p < (q + 1) * 1_000_000);
    assert(v <= q <= 133_100);
    assert(clip_i32(div_trunc(p, 1_000_000)) == q);
    assert(lesser(v, 100) == v);
}

proof fn lemma_growth(v: int, x: int, y: int, z: int)
    requires
        0 < v <= 100,
        100 <= x <= 1100,
        100 <= y <= 1100,
        100 <= z <= 1100,
    ensures
        v * 1_000_000 <= v * x * y * z <= 133_100_000_000,
{
    let a = v * x;
    assert(v * 100 <= a <= 110_000) by (nonlinear_arith)
        requires
            a == v * x,
            0 < v <= 100,
            100 <= x <= 1100,
    ;
    let b = a * y;
    assert(v * 10_000 <= b <= 121_000_000) by (nonlinear_arith)
        requires
            b == a * y,
            0 < v * 100 <= a <= 110_000,
            100 <= y <= 1100,
    ;
    let c = b * z;
    assert(v * 1_000_000 <= c <= 133_100_000_000) by (nonlinear_arith)
        requires
            c == b * z,
            0 < v * 10_000 <= b <= 121_000_000,
            100 <= z <= 1100,
    ;
}

/// An attribute that a training does not raise, or lowers, is left alone by the scenario.
pub proof fn law_unraised_attributes_stay(status: Seq<i32>, e: EffectSum, i: int)
    requires
        0 <= i < 5,
        status.len() == 6,
        status[i] <= 0,
    ensures
        applied(status, e)[i] == status[i],
{
}

/// What is shown of an effect: every number that is not zero with its label, and nothing else.
pub proof fn law_effects_are_shown(v: int)
    requires
        v != 0,
    ensures
        ({
            let n = EffectSum::nothing();
            &&& effect_parts(n).len() == 0
            &&& effect_parts((EffectSum { xunlian: v, ..n })) =~= seq!["训+"@ + dec(v)]
            &&& effect_parts((EffectSum { youqing: v, ..n })) =~= seq!["友情+"@ + dec(v)]
            &&& effect_parts((EffectSum { deyilv: v, ..n })) =~= seq!["得意+"@ + dec(v)]
            &&& effect_parts((EffectSum { fail_rate_drop: v, ..n })) =~= seq!["失败率-"@ + dec(v)]
            &&& effect_parts((EffectSum { friendship: v, ..n })) =~= seq!["羁绊+"@ + dec(v)]
            &&& effect_parts((EffectSum { status_limit: v, ..n })) =~= seq!["上限+"@ + dec(v)]
            &&& effect_parts((EffectSum { pt_bonus: v, ..n })) =~= seq!["PT+"@ + dec(v)]
            &&& effect_parts((EffectSum { pt_limit: v, ..n })) =~= seq!["PT上限+"@ + dec(v)]
            &&& effect_parts((EffectSum { hint: v, ..n })) =~= seq!["hint+"@ + dec(v)]
            &&& effect_parts((EffectSum { clone_count: v, ..n })) =~= seq!["分身+"@ + dec(v)]
            &&& effect_parts((EffectSum { hint_special: true, ..n })) =~= seq!["hint全卡"@]
        }),
{
}

/// A settlement that has not taken place gives nothing: the effect is then that of the tier alone.
pub proof fn law_unsettled_years_give_nothing(
    game: &RamenGame,
    data: &RamenScenarioData,
    train: usize,
    k: int,
)
    requires
        game.base.turn <= 71,
        24 <= game.base.turn <= 47 ==> game.ramen.rmj_results@.len() == 0,
        48 <= game.base.turn ==> game.ramen.rmj_results@.len() <= 1,
        0 <= k < data.ramen_pt_effect@.len(),
        game.ramen.scenario_pt >= data.ramen_pt_effect@[k].pt_min || k == 0,
        forall|j: int|
            k < j < data.ramen_pt_effect@.len() ==> game.ramen.scenario_pt < (
            #[trigger] data.ramen_pt_effect@[j]).pt_min,
    ensures
        ({
            let e = scenario_effect(game, data, train, true, None);
            let tier = data.ramen_pt_effect@[k];
            &&& e.youqing == 0
            &&& e.xunlian == tier.xunlian
            &&& e.deyilv == tier.deyilv
            &&& e.hint == tier.hint
            &&& scenario_deyilv(game, data) == tier.deyilv
        }),
{
    law_tier_is_the_last_one_reached(
        data.ramen_pt_effect@,
        game.ramen.scenario_pt as int,
        k,
    );
}

/// The effect of a turn is that of the bowl eaten on it: none where nothing was eaten, the bowl's
/// otherwise.
pub proof fn law_effect_is_of_the_eaten_bowl(
    game: &RamenGame,
    data: &RamenScenarioData,
    train: usize,
    is_shining: bool,
    r: usize,
)
    ensures
        game.ramen.current_ramen == Some(r) ==> effect_now(game, data, train, is_shining)
            == scenario_effect(game, data, train, is_shining, Some(r)),
        game.ramen.current_ramen is None ==> effect_now(game, data, train, is_shining)
            == scenario_effect(game, data, train, is_shining, None),
{
}

} // verus!
