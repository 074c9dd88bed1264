use vstd::prelude::*;
use super::distribution::{
    card_place,
    card_refreshed,
    deck_position,
    known,
    law_who_shines,
    lemma_place_is_first,
    shines,
};
use super::effects::{
    applied,
    apply_ramen_training_effect,
    bowl_known,
    calc_ramen_training_effect,
    calc_scenario_deyilv,
    caps_fit,
    effect_now,
    raised,
    scenario_deyilv,
    scenario_effect,
    RamenTrainingEffect,
};
use super::RamenGame;
use crate::error::SimError;
use crate::game::base::person::PersonType;
use crate::game::base::state::{camp_turn, BaseGame};
use crate::game::support_card::{
    effect_computable,
    training_effect,
    CardTrainingEffect,
    EffectView,
    Stack,
    SupportCard,
};
use crate::gamedata::event::ActionValue;
use crate::gamedata::ramen::RamenScenarioData;

verus! {

/// The level of a training: the fifth during the summer camp, otherwise one more for every four
/// times it was done and for every successful settlement, five at most.
pub open spec fn level_of(turn: int, count: int, bonus: int) -> int {
    if camp_turn(turn) {
        5
    } else if count / 4 + 1 + bonus < 5 {
        count / 4 + 1 + bonus
    } else {
        5
    }
}

/// The level of a training now.
pub open spec fn level_now(game: &RamenGame, train: int) -> int {
    level_of(
        game.base.turn as int,
        game.base.train_level_count@[train] as int,
        game.ramen.train_level_bonus as int,
    )
}

/// What a training gives with the scenario now: a friendship training where somebody shines, and with
/// the bowl that was eaten.
pub open spec fn raised_now(
    game: &RamenGame,
    data: &RamenScenarioData,
    train: usize,
    lower: ActionValue,
    v: ActionValue,
) -> bool {
    value_raised(
        lower,
        applied(
            lower.status_pt@,
            effect_now(game, data, train, game.shining(train as int).len() > 0),
        ),
        v,
    )
}

/// What the card behind a person contributes to a training; nothing for persons without a card.
/// The friendship bonus counts only where the person makes it a friendship training.
pub open spec fn contribution(game: &RamenGame, p: i32, train: int) -> Option<EffectView> {
    if known(game.persons@, p) {
        match game.persons@[p as int].card_id {
            Some(cid) => match deck_position(game.base.deck@, cid, 0) {
                Some(d) => {
                    let e = training_effect(
                        &game.base.deck@[d],
                        game.base.deck@,
                        game.shining(train).len() as int,
                    );
                    Some(
                        if shines(game.persons@, game.group_buff(), p as int, train) {
                            e
                        } else {
                            EffectView { youqing: Seq::empty(), ..e }
                        },
                    )
                },
                None => None,
            },
            None => None,
        }
    } else {
        None
    }
}

/// What the first persons at a training contribute together.
pub open spec fn contributions(game: &RamenGame, train: int, n: int) -> EffectView
    decreases n,
{
    if n <= 0 {
        EffectView::nothing()
    } else {
        let before = contributions(game, train, n - 1);
        match contribution(game, game.row(train)[n - 1], train) {
            Some(e) => before.plus(e),
            None => before,
        }
    }
}

/// What all persons at a training contribute together.
pub open spec fn buff_at(game: &RamenGame, train: int) -> EffectView {
    contributions(game, train, game.row(train).len() as int)
}

/// The contributions to a training can be computed.
pub open spec fn contributions_ok(game: &RamenGame, train: int) -> bool {
    &&& forall|d: int|
        0 <= d < game.base.deck@.len() ==> effect_computable(
            &#[trigger] game.base.deck@[d],
            game.base.deck@,
            game.shining(train).len() as int,
        )
    &&& forall|n: int|
        0 <= n <= game.row(train).len() ==> (#[trigger] contributions(game, train, n)).in_range()
}

impl RamenGame {
    /// The level of a training.
    pub fn train_level(&self, train: usize) -> (level: usize)
        requires
            train < 5,
            self.base.train_level_count@[train as int] >= 0,
            self.ramen.train_level_bonus >= 0,
        ensures
            level == level_of(
                self.base.turn as int,
                self.base.train_level_count@[train as int] as int,
                self.ramen.train_level_bonus as int,
            ),
            level == level_now(self, train as int),
            1 <= level <= 5,
    {
        if self.base.is_xiahesu() {
            5
        } else {
            let base: i64 = (self.base.train_level_count[train] / 4) as i64 + 1;
            let level: i64 = base + self.ramen.train_level_bonus as i64;
            if level < 5 {
                level as usize
            } else {
                5
            }
        }
    }

    /// The speciality rate of a person: that of their card, and what the scenario adds to it.
    /// Nobody without a card has one. The contribution of the card is computed on the way and kept
    /// with the card.
    pub fn deyilv(&mut self, data: &RamenScenarioData, person_index: i32) -> (r: Option<(Stack, i32)>)
        requires
            data.complete(),
            card_place(old(self).persons@, old(self).base.deck@, person_index) matches Some(d)
                ==> effect_computable(
                &old(self).base.deck@[d],
                old(self).base.deck@,
                old(self).shining(0).len() as int,
            ),
        ensures
            match card_place(old(self).persons@, old(self).base.deck@, person_index) {
                Some(d) => r matches Some((own, added)) && own.view() == training_effect(
                    &old(self).base.deck@[d],
                    old(self).base.deck@,
                    old(self).shining(0).len() as int,
                ).deyilv && added == scenario_deyilv(old(self), data),
                None => r is None,
            },
            card_refreshed(*old(self), final(self).base.deck@, person_index),
            *final(self) == (RamenGame {
                base: BaseGame { deck: final(self).base.deck, ..old(self).base },
                ..*old(self)
            }),
    {
        let added: i32 = calc_scenario_deyilv(self, data);
        match self.refresh_card(person_index) {
            Some(d) => Some((self.base.deck[d].effect.deyilv.copy(), added)),
            None => None,
        }
    }

    /// What the cards at a training contribute together.
    ///
    /// Refused for a training outside the five.
    pub fn default_calc_training_buff(&self, train: usize) -> (r: Result<CardTrainingEffect, SimError>)
        requires
            train < 5 ==> contributions_ok(self, train as int),
        ensures
            match r {
                Ok(e) => train < 5 && e.view() == contributions(
                    self,
                    train as int,
                    self.row(train as int).len() as int,
                ),
                Err(e) => train >= 5 && e == (SimError::TrainOutOfRange { train }),
            },
            r matches Ok(e) ==> e.view() == buff_at(self, train as int),
    {
        if train >= 5 {
            return Err(SimError::TrainOutOfRange { train });
        }
        let mut ret: CardTrainingEffect = CardTrainingEffect::none();
        if train >= self.base.distribution.len() {
            return Ok(ret);
        }
        let shining: usize = self.shining_count(train);
        let row: &Vec<i32> = &self.base.distribution[train];
        let mut i: usize = 0;
        while i < row.len()
            invariant
                train < self.base.distribution@.len(),
                row@ == self.row(train as int),
                i <= row@.len(),
                shining == self.shining(train as int).len(),
                contributions_ok(self, train as int),
                ret.view() == contributions(self, train as int, i as int),
            decreases row@.len() - i,
        {
            let p: i32 = row[i];
            assert(contributions(self, train as int, i as int + 1).in_range());
            if p >= 0 {
                let person_index: usize = p as usize;
                match self.deck_index_of(person_index) {
                    Some(d) => {
                        let card: &SupportCard = &self.base.deck[d];
                        assert(effect_computable(
                            &self.base.deck@[d as int],
                            self.base.deck@,
                            shining as int,
                        ));
                        let mut effect: CardTrainingEffect = card.calc_training_effect(
                            &self.base.deck,
                            shining,
                        );
                        if !self.is_shining_at(person_index, train) {
                            effect.clear_friendship();
                        }
                        ret = ret.add(&effect);
                    },
                    None => {},
                }
            }
            i = i + 1;
        }
        Ok(ret)
    }

    /// What the cards at a training contribute together.
    pub fn calc_training_buff(&self, train: usize) -> (r: Result<CardTrainingEffect, SimError>)
        requires
            train < 5 ==> contributions_ok(self, train as int),
        ensures
            match r {
                Ok(e) => train < 5 && e.view() == contributions(
                    self,
                    train as int,
                    self.row(train as int).len() as int,
                ),
                Err(e) => train >= 5 && e == (SimError::TrainOutOfRange { train }),
            },
            r matches Ok(e) ==> e.view() == buff_at(self, train as int),
    {
        self.default_calc_training_buff(train)
    }

    /// What a training gives with the scenario, given what it gives without.
    ///
    /// Refused for a training outside the five and one more.
    pub fn calc_training_value(&self, data: &RamenScenarioData, lower: &ActionValue, train: usize) -> (r:
        Result<ActionValue, SimError>)
        requires
            data.complete(),
            bowl_known(data, self.ramen.current_ramen),
            train <= 5 ==> caps_fit(
                scenario_effect(
                    self,
                    data,
                    train,
                    self.shining(train as int).len() > 0,
                    self.ramen.current_ramen,
                ),
            ),
        ensures
            match r {
                Ok(v) => train <= 5 && value_raised(
                    *lower,
                    applied(
                        lower.status_pt@,
                        scenario_effect(
                            self,
                            data,
                            train,
                            self.shining(train as int).len() > 0,
                            self.ramen.current_ramen,
                        ),
                    ),
                    v,
                ),
                Err(e) => train > 5 && e == (SimError::TrainOutOfRange { train }),
            },
            r matches Ok(v) ==> raised_now(self, data, train, *lower, v),
    {
        if train > 5 {
            return Err(SimError::TrainOutOfRange { train });
        }
        let is_shining: bool = self.shining_count(train) > 0;
        let effect: RamenTrainingEffect = calc_ramen_training_effect(self, data, train, is_shining);
        self.calc_training_value_with_effect(lower, train, &effect)
    }

    /// What a training gives with an effect of the scenario, given what it gives without.
    ///
    /// Refused for a training outside the five and one more.
    pub fn calc_training_value_with_effect(
        &self,
        lower: &ActionValue,
        train: usize,
        ramen_effect: &RamenTrainingEffect,
    ) -> (r: Result<ActionValue, SimError>)
        requires
            train <= 5 ==> caps_fit(ramen_effect@),
        ensures
            match r {
                Ok(v) => train <= 5 && value_raised(
                    *lower,
                    applied(lower.status_pt@, ramen_effect@),
                    v,
                ),
                Err(e) => train > 5 && e == (SimError::TrainOutOfRange { train }),
            },
    {
        if train > 5 {
            return Err(SimError::TrainOutOfRange { train });
        }
        let mut value: ActionValue = *lower;
        value.status_pt = apply_ramen_training_effect(lower.status_pt, ramen_effect);
        Ok(value)
    }
}

/// What a training gives before its bonuses multiply: a status value that the training raises
/// gets the cards' bonus on top, and a friendship training of wisdom restores vitality.
pub open spec fn base_value(basic: Seq<i32>, bonus: Seq<i32>, train: int, restores: int, friendly: bool) -> (
    Seq<int>,
    int,
) {
    (
        Seq::new(
            6,
            |i: int|
                if basic[i] > 0 {
                    basic[i] + bonus[i]
                } else {
                    0
                },
        ),
        if train == 4 && friendly {
            basic[6] + restores
        } else {
            basic[6] as int
        },
    )
}

/// What a training gives before its bonuses multiply, from the table entry of its level and what
/// the cards contribute; `friendly` tells whether there is a friendship bonus.
///
/// Refused for a training outside the five.
pub fn training_base(basic: &[i32; 7], buffs: &CardTrainingEffect, train: usize, friendly: bool) -> (r:
    Result<ActionValue, SimError>)
    requires
        forall|i: int|
            0 <= i < 6 ==> i32::MIN <= #[trigger] basic@[i] + buffs.bonus@[i] <= i32::MAX,
        i32::MIN <= basic@[6] + buffs.wiz_vital_bonus <= i32::MAX,
    ensures
        match r {
            Ok(v) => {
                let want = base_value(
                    basic@,
                    buffs.bonus@,
                    train as int,
                    buffs.wiz_vital_bonus as int,
                    friendly,
                );
                &&& train < 5
                &&& forall|i: int| 0 <= i < 6 ==> #[trigger] v.status_pt@[i] == want.0[i]
                &&& v.vital == want.1
                &&& v == (ActionValue {
                    status_pt: v.status_pt,
                    vital: v.vital,
                    max_vital: 0,
                    motivation: 0,
                    friendship: 0,
                    hint_level: 0,
                })
            },
            Err(e) => train >= 5 && e == (SimError::TrainOutOfRange { train }),
        },
{
    if train >= 5 {
        return Err(SimError::TrainOutOfRange { train });
    }
    let mut status: [i32; 6] = [0, 0, 0, 0, 0, 0];
    let mut i: usize = 0;
    while i < 6
        invariant
            i <= 6,
            forall|k: int|
                0 <= k < 6 ==> i32::MIN <= #[trigger] basic@[k] + buffs.bonus@[k] <= i32::MAX,
            forall|k: int|
                0 <= k < i ==> #[trigger] status@[k] == if basic@[k] > 0 {
                    basic@[k] + buffs.bonus@[k]
                } else {
                    0
                },
            forall|k: int| i <= k < 6 ==> #[trigger] status@[k] == 0,
        decreases 6 - i,
    {
        if basic[i] > 0 {
            status[i] = basic[i] + buffs.bonus[i];
        }
        i = i + 1;
    }
    let vital: i32 = if train == 4 && friendly {
        basic[6] + buffs.wiz_vital_bonus
    } else {
        basic[6]
    };
    Ok(
        ActionValue {
            status_pt: status,
            vital,
            max_vital: 0,
            motivation: 0,
            friendship: 0,
            hint_level: 0,
        },
    )
}

/// Values whose status values and skill points have been replaced.
pub open spec fn value_raised(before: ActionValue, status: Seq<int>, after: ActionValue) -> bool {
    &&& forall|i: int| 0 <= i < 6 ==> #[trigger] after.status_pt@[i] == status[i]
    &&& after == (ActionValue { status_pt: after.status_pt, ..before })
}

/// A training has no friendship percentage where nobody at it is a card of this training with a bond
/// of eighty or more, nor the scenario's friend while the group is enthusiastic.
pub proof fn law_no_shine_no_friendship(game: &RamenGame, train: int, n: int)
    requires
        0 <= train < game.base.distribution@.len(),
        0 <= n <= game.base.distribution@[train]@.len(),
        forall|k: int|
            0 <= k < n ==> {
                let p = #[trigger] game.base.distribution@[train]@[k];
                0 <= p < game.persons@.len() ==> match game.persons@[p as int].person_type {
                    PersonType::Card => game.persons@[p as int].train_type != train
                        || game.persons@[p as int].friendship < 80,
                    PersonType::ScenarioCard => game.base.friend.group_buff_turn <= 0,
                    _ => true,
                }
            },
    ensures
        contributions(game, train, n).youqing == Seq::<int>::empty(),
        n == game.base.distribution@[train]@.len() ==> game.shining(train).len() == 0,
    decreases n,
{
    let row = game.base.distribution@[train]@;
    if n > 0 {
        law_no_shine_no_friendship(game, train, n - 1);
        assert(row[n - 1] == game.row(train)[n - 1]);
        assert(contributions(game, train, n).youqing =~= Seq::<int>::empty());
    }
    if n == row.len() {
        let persons = game.persons@;
        let buff = game.group_buff();
        lemma_filter_one(row, |p: i32| shines(persons, buff, p as int, train), -1);
    }
}

/// The friendship percentages of a whole training: none where nobody at it shines.
pub proof fn law_calm_training_has_no_friendship(game: &RamenGame, train: int)
    requires
        0 <= train < game.base.distribution@.len(),
        forall|k: int|
            0 <= k < game.base.distribution@[train]@.len() ==> {
                let p = #[trigger] game.base.distribution@[train]@[k];
                0 <= p < game.persons@.len() ==> match game.persons@[p as int].person_type {
                    PersonType::Card => game.persons@[p as int].train_type != train
                        || game.persons@[p as int].friendship < 80,
                    PersonType::ScenarioCard => game.base.friend.group_buff_turn <= 0,
                    _ => true,
                }
            },
    ensures
        buff_at(game, train).youqing == Seq::<int>::empty(),
{
    law_no_shine_no_friendship(game, train, game.base.distribution@[train]@.len() as int);
}

/// A card at its own training with a bond of eighty or more brings all its friendship percentages to
/// the training, on top of what the persons before it brought; one with a smaller bond or at another
/// training brings none of them. Everything else that the card contributes counts either way.
pub proof fn law_shining_card_counts_in_full(game: &RamenGame, train: int, n: int, d: int)
    requires
        0 <= train < game.base.distribution@.len(),
        0 < n <= game.base.distribution@[train]@.len(),
        0 <= game.base.distribution@[train]@[n - 1] < game.persons@.len(),
        game.persons@[game.base.distribution@[train]@[n - 1] as int].person_type == PersonType::Card,
        0 <= d < game.base.deck@.len(),
        game.persons@[game.base.distribution@[train]@[n - 1] as int].card_id == Some(
            game.base.deck@[d].card_id,
        ),
        forall|j: int|
            0 <= j < d ==> (#[trigger] game.base.deck@[j]).card_id != game.base.deck@[d].card_id,
    ensures
        ({
            let person = game.persons@[game.base.distribution@[train]@[n - 1] as int];
            let own = training_effect(
                &game.base.deck@[d],
                game.base.deck@,
                game.shining(train).len() as int,
            );
            let before = contributions(game, train, n - 1);
            let after = contributions(game, train, n);
            &&& person.train_type == train && person.friendship >= 80 ==> after.youqing
                =~= before.youqing + own.youqing
            &&& person.train_type != train || person.friendship < 80 ==> after.youqing
                =~= before.youqing
            &&& after.xunlian == before.xunlian + own.xunlian
            &&& after.ganjing == before.ganjing + own.ganjing
            &&& after.wiz_vital_bonus == before.wiz_vital_bonus + own.wiz_vital_bonus
            &&& after.fail_rate_drop =~= before.fail_rate_drop + own.fail_rate_drop
            &&& after.vital_cost_drop =~= before.vital_cost_drop + own.vital_cost_drop
            &&& forall|i: int|
                0 <= i < 6 ==> #[trigger] after.bonus[i] == before.bonus[i] + own.bonus[i]
        }),
{
    let p = game.base.distribution@[train]@[n - 1];
    assert(game.row(train)[n - 1] == p);
    lemma_place_is_first(game.base.deck@, game.base.deck@[d].card_id, 0, d);
}

/// Where one card alone makes a training a friendship training, its friendship percentages are those
/// of the training; a card without an effect of its own brings that of its panel.
pub proof fn law_single_shining_card(game: &RamenGame, train: int, k: int, d: int)
    requires
        0 <= train < game.base.distribution@.len(),
        0 <= k < game.base.distribution@[train]@.len(),
        0 <= game.base.distribution@[train]@[k] < game.persons@.len(),
        game.persons@[game.base.distribution@[train]@[k] as int].person_type == PersonType::Card,
        game.persons@[game.base.distribution@[train]@[k] as int].train_type == train,
        game.persons@[game.base.distribution@[train]@[k] as int].friendship >= 80,
        0 <= d < game.base.deck@.len(),
        game.persons@[game.base.distribution@[train]@[k] as int].card_id == Some(
            game.base.deck@[d].card_id,
        ),
        forall|j: int|
            0 <= j < d ==> (#[trigger] game.base.deck@[j]).card_id != game.base.deck@[d].card_id,
        forall|j: int|
            0 <= j < game.base.distribution@[train]@.len() && j != k ==> {
                let p = #[trigger] game.base.distribution@[train]@[j];
                0 <= p < game.persons@.len() ==> match game.persons@[p as int].person_type {
                    PersonType::Card => game.persons@[p as int].train_type != train
                        || game.persons@[p as int].friendship < 80,
                    PersonType::ScenarioCard => game.base.friend.group_buff_turn <= 0,
                    _ => true,
                }
            },
    ensures
        ({
            let all = buff_at(game, train).youqing;
            let card = game.base.deck@[d];
            &&& all == training_effect(&card, game.base.deck@, 1).youqing
            &&& card.data.unique_effect_type == 0 ==> all =~= seq![
                card.data.card_value@[card.rank as int].youqing as int,
            ]
        }),
{
    let row = game.base.distribution@[train]@;
    lemma_one_shines(game, train, k, row.len() as int, d);
    lemma_single_in_filter(game, train, k);
}

proof fn lemma_one_shines(game: &RamenGame, train: int, k: int, n: int, d: int)
    requires
        0 <= train < game.base.distribution@.len(),
        0 <= k < n <= game.base.distribution@[train]@.len(),
        shines(
            game.persons@,
            game.group_buff(),
            game.base.distribution@[train]@[k] as int,
            train,
        ),
        0 <= d < game.base.deck@.len(),
        game.persons@[game.base.distribution@[train]@[k] as int].card_id == Some(
            game.base.deck@[d].card_id,
        ),
        forall|j: int|
            0 <= j < d ==> (#[trigger] game.base.deck@[j]).card_id != game.base.deck@[d].card_id,
        forall|j: int|
            0 <= j < game.base.distribution@[train]@.len() && j != k ==> !shines(
                game.persons@,
                game.group_buff(),
                #[trigger] game.base.distribution@[train]@[j] as int,
                train,
            ),
    ensures
        contributions(game, train, n).youqing == training_effect(
            &game.base.deck@[d],
            game.base.deck@,
            game.shining(train).len() as int,
        ).youqing,
    decreases n,
{
    let row = game.base.distribution@[train]@;
    let own = training_effect(
        &game.base.deck@[d],
        game.base.deck@,
        game.shining(train).len() as int,
    ).youqing;
    assert(game.row(train)[n - 1] == row[n - 1]);
    if n - 1 == k {
        lemma_none_shine(game, train, k);
        lemma_place_is_first(game.base.deck@, game.base.deck@[d].card_id, 0, d);
        assert(contributions(game, train, n).youqing =~= own);
    } else {
        lemma_one_shines(game, train, k, n - 1, d);
        assert(contributions(game, train, n).youqing =~= own);
    }
}

proof fn lemma_none_shine(game: &RamenGame, train: int, n: int)
    requires
        0 <= train < game.base.distribution@.len(),
        0 <= n <= game.base.distribution@[train]@.len(),
        forall|j: int|
            0 <= j < n ==> !shines(
                game.persons@,
                game.group_buff(),
                #[trigger] game.base.distribution@[train]@[j] as int,
                train,
            ),
    ensures
        contributions(game, train, n).youqing == Seq::<int>::empty(),
    decreases n,
{
    if n > 0 {
        lemma_none_shine(game, train, n - 1);
        assert(game.row(train)[n - 1] == game.base.distribution@[train]@[n - 1]);
        assert(contributions(game, train, n).youqing =~= Seq::<int>::empty());
    }
}

proof fn lemma_single_in_filter(game: &RamenGame, train: int, k: int)
    requires
        0 <= train < game.base.distribution@.len(),
        0 <= k < game.base.distribution@[train]@.len(),
        shines(
            game.persons@,
            game.group_buff(),
            game.base.distribution@[train]@[k] as int,
            train,
        ),
        forall|j: int|
            0 <= j < game.base.distribution@[train]@.len() && j != k ==> !shines(
                game.persons@,
                game.group_buff(),
                #[trigger] game.base.distribution@[train]@[j] as int,
                train,
            ),
    ensures
        game.shining(train).len() == 1,
{
    let row = game.base.distribution@[train]@;
    let persons = game.persons@;
    let buff = game.group_buff();
    let f = |p: i32| shines(persons, buff, p as int, train);
    lemma_filter_one(row, f, k);
}

proof fn lemma_filter_one(row: Seq<i32>, f: spec_fn(i32) -> bool, k: int)
    requires
        k < row.len(),
        0 <= k ==> f(row[k]),
        forall|j: int| 0 <= j < row.len() && j != k ==> !f(#[trigger] row[j]),
    ensures
        row.filter(f).len() == if 0 <= k {
            1int
        } else {
            0
        },
    decreases row.len(),
{
    reveal(Seq::filter);
    if row.len() > 0 {
        let rest = row.drop_last();
        assert(row[row.len() - 1] == row.last());
        lemma_filter_one(
            rest,
            f,
            if k == row.len() - 1 {
                -1
            } else {
                k
            },
        );
    }
}

/// The level of a training starts at one, rises by one with every fourth time it was done and with
/// every successful settlement, and ends at five; on turns thirty-six to thirty-nine and sixty to
/// sixty-three it is the fifth for everyone.
pub proof fn law_training_levels(turn: int, count: int, bonus: int)
    requires
        count >= 0,
        bonus >= 0,
    ensures
        36 <= turn <= 39 || 60 <= turn <= 63 ==> level_of(turn, count, bonus) == 5,
        1 <= level_of(turn, count, bonus) <= 5,
        !(36 <= turn <= 39 || 60 <= turn <= 63) ==> {
            &&& level_of(turn, 0, 0) == 1
            &&& count < 4 && bonus == 0 ==> level_of(turn, count, bonus) == 1
            &&& level_of(turn, count, bonus) < 5 ==> level_of(turn, count + 4, bonus) == level_of(
                turn,
                count,
                bonus,
            ) + 1
            &&& level_of(turn, count, bonus) < 5 ==> level_of(turn, count, bonus + 1) == level_of(
                turn,
                count,
                bonus,
            ) + 1
            &&& level_of(turn, count, bonus) == 5 ==> level_of(turn, count + 1, bonus) == 5
        },
{
}

/// What a training gives before its bonuses multiply: a status value that its table entry raises
/// gets the cards' bonus, one that it does not raise gets none; only a friendship training of wisdom
/// restores what the cards add to the vitality.
pub proof fn law_bonus_goes_where_the_table_raises(
    basic: Seq<i32>,
    bonus: Seq<i32>,
    train: int,
    restores: int,
    friendly: bool,
    i: int,
)
    requires
        basic.len() == 7,
        bonus.len() == 6,
        0 <= i < 6,
    ensures
        basic[i] > 0 ==> base_value(basic, bonus, train, restores, friendly).0[i] - bonus[i]
            == basic[i],
        basic[i] <= 0 ==> base_value(basic, bonus, train, restores, friendly).0[i] == 0,
        train == 4 && friendly ==> base_value(basic, bonus, train, restores, friendly).1
            == basic[6] + restores,
        train != 4 || !friendly ==> base_value(basic, bonus, train, restores, friendly).1
            == basic[6],
{
}

/// The scenario changes a training's status values and skill points alone, never below what the
/// training gives without it, a hundred at most; where the training is no friendship training, the
/// friendship bonus is left out.
pub proof fn law_scenario_raises_a_training(
    game: &RamenGame,
    data: &RamenScenarioData,
    lower: ActionValue,
    train: usize,
    v: ActionValue,
    i: int,
)
    requires
        0 <= i < 6,
        value_raised(
            lower,
            applied(
                lower.status_pt@,
                scenario_effect(
                    game,
                    data,
                    train,
                    game.shining(train as int).len() > 0,
                    game.ramen.current_ramen,
                ),
            ),
            v,
        ),
    ensures
        v.vital == lower.vital,
        v.motivation == lower.motivation,
        v.max_vital == lower.max_vital,
        v.friendship == lower.friendship,
        v.hint_level == lower.hint_level,
        lower.status_pt@[i] <= 100 ==> v.status_pt@[i] >= lower.status_pt@[i],
        lower.status_pt@[i] > 100 ==> v.status_pt@[i] >= 100,
        lower.status_pt@[i] <= 0 && i < 5 ==> v.status_pt@[i] == lower.status_pt@[i],
{
}

/// The scenario's friend brings the friendship percentages of their card while the group is
/// enthusiastic, whatever the training and the bond, and none of them otherwise.
pub proof fn law_friend_shines_with_the_group(game: &RamenGame, train: int, n: int, d: int)
    requires
        0 <= train < game.base.distribution@.len(),
        0 < n <= game.base.distribution@[train]@.len(),
        0 <= game.base.distribution@[train]@[n - 1] < game.persons@.len(),
        game.persons@[game.base.distribution@[train]@[n - 1] as int].person_type
            == PersonType::ScenarioCard,
        0 <= d < game.base.deck@.len(),
        game.persons@[game.base.distribution@[train]@[n - 1] as int].card_id == Some(
            game.base.deck@[d].card_id,
        ),
        forall|j: int|
            0 <= j < d ==> (#[trigger] game.base.deck@[j]).card_id != game.base.deck@[d].card_id,
    ensures
        ({
            let own = training_effect(
                &game.base.deck@[d],
                game.base.deck@,
                game.shining(train).len() as int,
            );
            let before = contributions(game, train, n - 1);
            let after = contributions(game, train, n);
            &&& game.base.friend.group_buff_turn > 0 ==> after.youqing =~= before.youqing
                + own.youqing
            &&& game.base.friend.group_buff_turn <= 0 ==> after.youqing =~= before.youqing
            &&& after.xunlian == before.xunlian + own.xunlian
        }),
{
    let p = game.base.distribution@[train]@[n - 1];
    assert(game.row(train)[n - 1] == p);
    lemma_place_is_first(game.base.deck@, game.base.deck@[d].card_id, 0, d);
}

/// Whoever has no card contributes nothing: bystanders, director and reporter, and empty places.
pub proof fn law_no_card_no_contribution(game: &RamenGame, train: int, n: int)
    requires
        0 <= train < game.base.distribution@.len(),
        0 < n <= game.base.distribution@[train]@.len(),
        ({
            let p = game.base.distribution@[train]@[n - 1];
            p < 0 || p >= game.persons@.len() || game.persons@[p as int].card_id is None
        }),
    ensures
        contributions(game, train, n) == contributions(game, train, n - 1),
        contributions(game, train, 0) == EffectView::nothing(),
{
    assert(game.row(train)[n - 1] == game.base.distribution@[train]@[n - 1]);
}

/// What a training gives now depends on who stands there: with nobody who makes it a friendship
/// training the friendship bonus of the scenario is left out, with somebody it counts in full; and with
/// the bowl that was eaten, not with another.
pub proof fn law_training_counts_its_persons_and_bowl(
    game: &RamenGame,
    data: &RamenScenarioData,
    train: usize,
    lower: ActionValue,
    v: ActionValue,
    k: int,
    i: int,
)
    requires
        raised_now(game, data, train, lower, v),
        train < game.base.distribution@.len(),
        0 <= i < 5,
        0 < lower.status_pt@[i] <= 100,
    ensures
        ({
            let row = game.base.distribution@[train as int]@;
            let p = row[k];
            let e = scenario_effect(game, data, train, true, game.ramen.current_ramen);
            let cap = 100 + e.status_limit;
            let with = raised(lower.status_pt@[i] as int, e.xunlian, e.youqing, 0);
            let without = raised(lower.status_pt@[i] as int, e.xunlian, 0, 0);
            &&& 0 <= k < row.len() && 0 <= p < game.persons@.len()
                && game.persons@[p as int].person_type == PersonType::Card
                && game.persons@[p as int].train_type == train && game.persons@[p as int].friendship
                >= 80 && lower.status_pt@[i] <= with <= lower.status_pt@[i] + cap
                ==> v.status_pt@[i] == with
            &&& (forall|j: int|
                0 <= j < row.len() ==> {
                    let q = #[trigger] row[j];
                    0 <= q < game.persons@.len() ==> match game.persons@[q as int].person_type {
                        PersonType::Card => game.persons@[q as int].train_type != train
                            || game.persons@[q as int].friendship < 80,
                        PersonType::ScenarioCard => game.base.friend.group_buff_turn <= 0,
                        _ => true,
                    }
                }) && lower.status_pt@[i] <= without <= lower.status_pt@[i] + cap
                ==> v.status_pt@[i] == without
        }),
{
    let row = game.base.distribution@[train as int]@;
    let p = row[k];
    if 0 <= k < row.len() && 0 <= p < game.persons@.len() && game.persons@[p as int].person_type
        == PersonType::Card && game.persons@[p as int].train_type == train
        && game.persons@[p as int].friendship >= 80 {
        law_who_shines(game, p, train as int);
        assert(row.contains(p));
        assert(game.shining(train as int).contains(p));
        assert(game.shining(train as int).len() > 0);
    }
    if forall|j: int|
        0 <= j < row.len() ==> {
            let q = #[trigger] row[j];
            0 <= q < game.persons@.len() ==> match game.persons@[q as int].person_type {
                PersonType::Card => game.persons@[q as int].train_type != train
                    || game.persons@[q as int].friendship < 80,
                PersonType::ScenarioCard => game.base.friend.group_buff_turn <= 0,
                _ => true,
            }
        } {
        law_no_shine_no_friendship(game, train as int, row.len() as int);
        assert(game.shining(train as int).len() == 0);
    }
}

/// A training's level comes from how often it was done and from the settlements, and not from those of
/// other trainings: four times more, or one settlement more, is one level more.
pub proof fn law_level_counts_its_own_training(
    game: &RamenGame,
    other: &RamenGame,
    train: int,
)
    requires
        0 <= train < 5,
        0 <= game.base.train_level_count@[train],
        0 <= game.ramen.train_level_bonus,
        !(36 <= game.base.turn <= 39 || 60 <= game.base.turn <= 63),
        other.base.turn == game.base.turn,
    ensures
        other.base.train_level_count@[train] == game.base.train_level_count@[train] + 4
            && other.ramen.train_level_bonus == game.ramen.train_level_bonus && level_now(game, train)
            < 5 ==> level_now(other, train) == level_now(game, train) + 1,
        other.base.train_level_count@[train] == game.base.train_level_count@[train]
            && other.ramen.train_level_bonus == game.ramen.train_level_bonus + 1 && level_now(
            game,
            train,
        ) < 5 ==> level_now(other, train) == level_now(game, train) + 1,
        game.base.train_level_count@[train] == 0 && game.ramen.train_level_bonus == 0 ==> level_now(
            game,
            train,
        ) == 1,
{
}

} // verus!
