use rand::rngs::StdRng;
use vstd::prelude::*;
use super::action::{
    action_views,
    available,
    bowl_actions,
    bowl_answers,
    bowl_if,
    fixed_decides,
    flavour_answers,
    get_available_ramens,
    law_operations_with_bowls,
    law_region_offers,
    legal_now,
    lemma_in_either,
    list_all_actions,
    list_ramen_select_actions,
    list_region_select_actions,
    list_special_select_actions,
    list_super_ramen_select_actions,
    list_train_actions,
    makeable,
    op_if,
    region_answers,
    region_offer,
    super_answers,
    train_actions,
    ActionView,
    OpView,
    Operation,
    RamenAction,
    RamenRegionStrategy,
    TrainingType,
};
use super::distribution::{
    absent_weight_of,
    all_sent,
    all_unhinted,
    chances_kept,
    deck_kept,
    deck_ready,
    law_nobody_is_forgotten,
    law_round_is_orderly,
    present,
    round_ok,
    seat_free,
    seated_rated,
    unhinted,
    SpecialityRate,
};
use super::events::{assign_train_feeling_type, covers_all_kinds};
use super::hints::{hint_chance_ok, hint_drawn, lemma_same_hint_bonus};
use super::rules::{ints, law_legal_flavours, recipe_fault};
use super::{bowl_turn, region_year, FeelingType, RamenGame, RamenStage, RamenState};
use crate::error::SimError;
use crate::game::base::person::PersonType;
use crate::game::base::state::{camp_turn, BaseGame, FriendOutState};
use crate::game::support_card::{effect_computable, same_card};
use crate::gamedata::constants::GameConstants;
use crate::gamedata::event::EventData;
use crate::gamedata::ramen::RamenScenarioData;

verus! {

impl RamenGame {
    /// The operations of the turn, as if no race were due.
    pub open spec fn open_actions(&self) -> Seq<ActionView> {
        train_actions(
            self.base.friend.out_state == FriendOutState::AfterUnlock
                && self.base.friend.outings_left > 0,
            self.base.uma.flags.ill,
            camp_turn(self.base.turn as int),
            13 <= self.base.turn <= 71,
        )
    }

    /// The operations of the turn: where a race of the career is due, that alone.
    pub open spec fn turn_actions(&self) -> Seq<ActionView> {
        if self.base.uma.race_turn(self.base.turn as int) {
            seq![ActionView::plain(OpView::Race)]
        } else {
            self.open_actions()
        }
    }

    /// The operations of the turn, whatever the stage.
    pub fn list_train_actions(&self) -> (out: Vec<RamenAction>)
        ensures
            action_views(out@) == self.turn_actions(),
    {
        if self.base.is_race_turn() {
            let mut out: Vec<RamenAction> = Vec::new();
            out.push(RamenAction::no_ramen(Operation::Race));
            assert(action_views(out@) =~= seq![ActionView::plain(OpView::Race)]);
            return out;
        }
        list_train_actions(
            self.base.can_friend_outing(),
            self.base.uma.flags.ill,
            self.base.is_xiahesu(),
            self.base.can_self_race(),
        )
    }

    /// What the answers at a stage are, where they can be listed.
    ///
    /// The picks of regions and of the super ramen come before everything else: a race that is due
    /// does not take their place.
    pub open spec fn answers(
        &self,
        data: &RamenScenarioData,
        strategy: RamenRegionStrategy,
        fixed: Option<&Vec<[usize; 3]>>,
        list: Seq<ActionView>,
    ) -> bool {
        match self.stage {
            RamenStage::SuperRamenSelect => list == super_answers(
                data.finals_effect.training_limit_options@.len(),
            ),
            RamenStage::RegionSelect => exists|combos: Seq<[usize; 3]>| #[trigger]
                region_offer(self.base.turn as int, strategy, fixed, combos) && list
                    == region_answers(combos),
            RamenStage::Train => list == self.turn_actions(),
            RamenStage::RamenSelect => list == if bowl_turn(self.base.turn as int) {
                bowl_answers(data, &self.ramen, self.ramen.selected_regions@)
            } else {
                seq![ActionView::bowl(None)]
            },
            RamenStage::SpecialSelect => self.ramen.pending_ramen matches Some(r) && list
                == flavour_answers(legal_now(data, &self.ramen, r), r),
            _ => list == bowl_actions(
                self.open_actions(),
                if bowl_turn(self.base.turn as int) {
                    available(data, &self.ramen, self.ramen.selected_regions@)
                } else {
                    Seq::empty()
                },
            ),
        }
    }

    /// Why the answers at a stage cannot be listed.
    pub open spec fn answers_fault(
        &self,
        data: &RamenScenarioData,
        strategy: RamenRegionStrategy,
        fixed: Option<&Vec<[usize; 3]>>,
    ) -> Option<SimError> {
        match self.stage {
            RamenStage::RegionSelect => match region_year(self.base.turn as int) {
                None => Some(SimError::TurnOutOfRange { turn: self.base.turn }),
                Some(y) => if fixed_decides(y, strategy) && (fixed matches Some(table)
                    ==> table@.len() == 0) {
                    Some(SimError::NoFixedRegions)
                } else {
                    None
                },
            },
            RamenStage::SpecialSelect => match self.ramen.pending_ramen {
                None => Some(SimError::NoPendingRamen),
                Some(r) => recipe_fault(data, r),
            },
            _ => None,
        }
    }

    /// The answers at the present stage.
    pub fn list_actions(
        &self,
        data: &RamenScenarioData,
        strategy: RamenRegionStrategy,
        fixed: Option<&Vec<[usize; 3]>>,
    ) -> (r: Result<Vec<RamenAction>, SimError>)
        requires
            data.recipes_valid(),
        ensures
            match self.answers_fault(data, strategy, fixed) {
                Some(e) => r == Err::<Vec<RamenAction>, SimError>(e),
                None => r matches Ok(out) && self.answers(
                    data,
                    strategy,
                    fixed,
                    action_views(out@),
                ),
            },
    {
        match self.stage {
            RamenStage::SuperRamenSelect => Ok(list_super_ramen_select_actions(data)),
            RamenStage::RegionSelect => list_region_select_actions(self.base.turn, strategy, fixed),
            RamenStage::Train => Ok(self.list_train_actions()),
            RamenStage::RamenSelect => {
                if self.base.turn >= 2 && !self.is_super_ramen_turn() {
                    Ok(list_ramen_select_actions(data, &self.ramen, &self.ramen.selected_regions))
                } else {
                    let mut out: Vec<RamenAction> = Vec::new();
                    out.push(RamenAction::ramen_select(None));
                    assert(action_views(out@) =~= seq![ActionView::bowl(None)]);
                    Ok(out)
                }
            },
            RamenStage::SpecialSelect => match self.ramen.pending_ramen {
                Some(ramen_idx) => list_special_select_actions(data, &self.ramen, ramen_idx),
                None => Err(SimError::NoPendingRamen),
            },
            _ => {
                let bowls: Vec<usize> = if self.base.turn >= 2 && !self.is_super_ramen_turn() {
                    get_available_ramens(data, &self.ramen, &self.ramen.selected_regions)
                } else {
                    Vec::new()
                };
                assert(!bowl_turn(self.base.turn as int) ==> bowls@ =~= Seq::<usize>::empty());
                Ok(
                    list_all_actions(
                        &bowls,
                        self.base.can_friend_outing(),
                        self.base.uma.flags.ill,
                        self.base.is_xiahesu(),
                        self.base.can_self_race(),
                    ),
                )
            },
        }
    }

    /// Why an answer does not fit the present stage.
    pub open spec fn selection_fault(&self, a: ActionView) -> Option<SimError> {
        match (self.stage, a.operation) {
            (RamenStage::RamenSelect, OpView::StageOnly) => None,
            (RamenStage::SpecialSelect, OpView::StageOnly) => if a.special_targets is Some {
                None
            } else {
                Some(SimError::WrongStage)
            },
            (RamenStage::RegionSelect, OpView::RegionSelect(_)) => if region_year(
                self.base.turn as int,
            ) is Some {
                None
            } else {
                Some(SimError::TurnOutOfRange { turn: self.base.turn })
            },
            (RamenStage::SuperRamenSelect, OpView::SuperRamenSelect(_)) => None,
            _ => Some(SimError::WrongStage),
        }
    }

    /// What an answer to a question of the scenario does: it notes the bowl or the hidden flavours,
    /// or it records the regions or the super ramen.
    pub open spec fn selected(&self, a: ActionView, after: RamenGame) -> bool {
        match a.operation {
            OpView::RegionSelect(ids) => {
                let y = region_year(self.base.turn as int)->0;
                &&& after.ramen.selected_regions@ == ids
                &&& after.ramen.yearly_selected_regions@[y]@ == ids
                &&& forall|k: int|
                    0 <= k < 3 && k != y ==> #[trigger] after.ramen.yearly_selected_regions@[k]
                        == self.ramen.yearly_selected_regions@[k]
                &&& after == (RamenGame {
                    ramen: RamenState {
                        selected_regions: after.ramen.selected_regions,
                        yearly_selected_regions: after.ramen.yearly_selected_regions,
                        ..self.ramen
                    },
                    ..*self
                })
            },
            OpView::SuperRamenSelect(i) => after == (RamenGame {
                ramen: RamenState { super_ramen: Some(i), ..self.ramen },
                ..*self
            }),
            _ => if self.stage == RamenStage::RamenSelect {
                after == (RamenGame {
                    ramen: RamenState { pending_ramen: a.ramen, ..self.ramen },
                    ..*self
                })
            } else {
                &&& a.special_targets == Some(ints(after.ramen.pending_special_targets))
                &&& after == (RamenGame {
                    ramen: RamenState {
                        pending_special_targets: after.ramen.pending_special_targets,
                        ..self.ramen
                    },
                    ..*self
                })
            },
        }
    }

    /// Applies an answer to a question of the scenario. The stage moves on only with the next step.
    ///
    /// Refused where answer and stage do not fit; then nothing changes.
    pub fn apply_selection(&mut self, action: &RamenAction) -> (r: Result<(), SimError>)
        ensures
            match old(self).selection_fault(action@) {
                Some(e) => r == Err::<(), SimError>(e) && *final(self) == *old(self),
                None => r == Ok::<(), SimError>(()) && old(self).selected(action@, *final(self)),
            },
    {
        match (self.stage, action.operation) {
            (RamenStage::RamenSelect, Operation::StageOnly) => {
                self.ramen.pending_ramen = action.ramen;
                Ok(())
            },
            (RamenStage::SpecialSelect, Operation::StageOnly) => match action.special_targets {
                Some(t) => {
                    self.ramen.pending_special_targets = t;
                    Ok(())
                },
                None => Err(SimError::WrongStage),
            },
            (RamenStage::RegionSelect, Operation::RegionSelect(ids)) => {
                match RamenState::region_archive_year_idx(self.base.turn) {
                    Ok(y) => {
                        assert(action@.operation == OpView::RegionSelect(ids@));
                        self.ramen.selected_regions = ids;
                        self.ramen.yearly_selected_regions[y] = ids;
                        Ok(())
                    },
                    Err(e) => Err(e),
                }
            },
            (RamenStage::SuperRamenSelect, Operation::SuperRamenSelect(i)) => {
                self.ramen.super_ramen = Some(i);
                Ok(())
            },
            _ => Err(SimError::WrongStage),
        }
    }

    /// Whether the regions are taken from the fixed table, without a question.
    pub fn region_is_fixed(&self, strategy: RamenRegionStrategy) -> (b: bool)
        ensures
            b == (region_year(self.base.turn as int) matches Some(y) && fixed_decides(y, strategy)),
    {
        match RamenState::region_archive_year_idx(self.base.turn) {
            Ok(y) => y == 2 && strategy == RamenRegionStrategy::Fixed,
            Err(_) => false,
        }
    }

    /// Picks the regions of a year, given which of the answers was chosen. Where the fixed table
    /// decides, its first entry is taken whatever was chosen.
    ///
    /// Refused on turns without such a pick, where the table is needed but missing or empty, and
    /// for a choice beyond the answers; then nothing changes.
    pub fn run_region_select(
        &mut self,
        strategy: RamenRegionStrategy,
        fixed: Option<&Vec<[usize; 3]>>,
        selection: usize,
    ) -> (r: Result<(), SimError>)
        requires
            old(self).stage == RamenStage::RegionSelect,
        ensures
            match r {
                Ok(_) => exists|combos: Seq<[usize; 3]>, i: int| #[trigger]
                    region_offer(old(self).base.turn as int, strategy, fixed, combos)
                        && #[trigger] region_choice(
                        old(self).base.turn as int,
                        strategy,
                        selection,
                        i,
                    ) && 0 <= i < combos.len() && old(self).selected(
                        region_answers(combos)[i],
                        *final(self),
                    ),
                Err(e) => *final(self) == *old(self) && match region_year(
                    old(self).base.turn as int,
                ) {
                    None => e == (SimError::TurnOutOfRange { turn: old(self).base.turn }),
                    Some(y) => if fixed_decides(y, strategy) {
                        &&& fixed matches Some(table) ==> table@.len() == 0
                        &&& e == SimError::NoFixedRegions
                    } else {
                        exists|combos: Seq<[usize; 3]>| #[trigger]
                            region_offer(old(self).base.turn as int, strategy, fixed, combos)
                                && selection >= combos.len() && e == (
                            SimError::ChoiceOutOfRange { selection, len: combos.len() as usize })
                    },
                },
            },
    {
        let actions: Vec<RamenAction> = match list_region_select_actions(
            self.base.turn,
            strategy,
            fixed,
        ) {
            Ok(a) => a,
            Err(e) => {
                return Err(e);
            },
        };
        let ghost combos = choose|combos: Seq<[usize; 3]>| #[trigger]
            region_offer(self.base.turn as int, strategy, fixed, combos) && action_views(actions@)
                == region_answers(combos);
        assert(region_offer(self.base.turn as int, strategy, fixed, combos));
        assert(action_views(actions@).len() == actions@.len());
        assert(region_answers(combos).len() == combos.len());
        let i: usize = if self.region_is_fixed(strategy) {
            0
        } else {
            selection
        };
        if i >= actions.len() {
            return Err(SimError::ChoiceOutOfRange { selection, len: actions.len() });
        }
        assert(region_choice(self.base.turn as int, strategy, selection, i as int));
        assert(action_views(actions@)[i as int] == actions@[i as int]@);
        self.apply_selection(&actions[i])
    }

    /// Picks the super ramen, given which of the options was chosen.
    ///
    /// Refused where there is no option, and for a choice beyond the options; then nothing changes.
    pub fn run_super_ramen_select(&mut self, data: &RamenScenarioData, selection: usize) -> (r: Result<
        (),
        SimError,
    >)
        requires
            old(self).stage == RamenStage::SuperRamenSelect,
        ensures
            ({
                let n = data.finals_effect.training_limit_options@.len();
                match r {
                    Ok(_) => selection < n && *final(self) == (RamenGame {
                        ramen: RamenState { super_ramen: Some(selection), ..old(self).ramen },
                        ..*old(self)
                    }),
                    Err(e) => *final(self) == *old(self) && if n == 0 {
                        e == SimError::NoCandidates
                    } else {
                        selection >= n && e == (SimError::ChoiceOutOfRange {
                            selection,
                            len: n as usize,
                        })
                    },
                }
            }),
    {
        let actions: Vec<RamenAction> = list_super_ramen_select_actions(data);
        assert(action_views(actions@).len() == actions@.len());
        if actions.len() == 0 {
            return Err(SimError::NoCandidates);
        }
        if selection >= actions.len() {
            return Err(SimError::ChoiceOutOfRange { selection, len: actions.len() });
        }
        assert(action_views(actions@)[selection as int] == actions@[selection as int]@);
        self.apply_selection(&actions[selection])
    }

    /// Takes the events that wait for the end of the turn. Each is played once: none waits any more.
    pub fn take_unresolved_events(&mut self) -> (events: Vec<EventData>)
        ensures
            events == old(self).base.unresolved_events,
            final(self).base.unresolved_events@ == Seq::<EventData>::empty(),
            *final(self) == (RamenGame {
                base: BaseGame {
                    unresolved_events: final(self).base.unresolved_events,
                    ..old(self).base
                },
                ..*old(self)
            }),
    {
        let mut events: Vec<EventData> = Vec::new();
        std::mem::swap(&mut events, &mut self.base.unresolved_events);
        events
    }

    /// The distribution stage. On a race turn the trainings are emptied; otherwise the kinds shown
    /// at the trainings are drawn, everyone is sent to the trainings anew, given everyone's
    /// speciality rate, and hints are drawn.
    ///
    /// Refused where someone's shares of the trainings do not add up to more than zero; those whose
    /// turn came before have then been sent, and no hints have been drawn.
    pub fn run_distribute(
        &mut self,
        data: &RamenScenarioData,
        cons: &GameConstants,
        rates: &Vec<SpecialityRate>,
        rng: &mut StdRng,
    ) -> (r: Result<(), SimError>)
        requires
            data.complete(),
            old(self).persons@.len() <= i32::MAX,
            rates@.len() == old(self).persons@.len(),
            forall|i: int| 0 <= i < rates@.len() ==> (#[trigger] rates@[i]).small(),
            old(self).base.absent_rate_drop >= 100 - i32::MAX,
            deck_ready(old(self).base.deck@),
            forall|j: int|
                0 <= j < old(self).persons@.len() && (#[trigger] old(self).persons@[j]).person_type
                    == PersonType::Card ==> hint_chance_ok(old(self), data, cons, old(self).persons@[j]),
        ensures
            old(self).base.uma.race_turn(old(self).base.turn as int) ==> r is Ok && emptied(
                *old(self),
                *final(self),
            ),
            !old(self).base.uma.race_turn(old(self).base.turn as int) ==> match r {
                Ok(_) => exists|mid: RamenGame| #[trigger]
                    distributed(*old(self), mid, rates@) && everyone_sent(*old(self), mid, rates@)
                        && hinted(mid, *final(self), data, cons),
                Err(e) => e == SimError::EmptyWeights && distributed(
                    *old(self),
                    *final(self),
                    rates@,
                ),
            },
            (forall|i: int|
                0 <= i < rates@.len() ==> (#[trigger] rates@[i]).positive(
                    old(self).persons@[i].train_type as int,
                )) ==> r is Ok,
    {
        if self.base.is_race_turn() {
            self.reset_distribution();
            return Ok(());
        }
        self.ramen.absent_cards = Vec::new();
        let raw: [i32; 5] = assign_train_feeling_type(rng);
        let kinds: [FeelingType; 5] = feeling_kinds(&raw);
        self.ramen.train_feeling_type = Some(kinds);
        let ghost start = *self;
        let sent: Result<(), SimError> = self.distribute_all(rates, rng);
        let ghost mid = *self;
        assert(start.ramen.absent_cards@.len() == 0);
        assert(mid.ramen.absent_cards@.skip(0) =~= mid.ramen.absent_cards@);
        assert(distributed(*old(self), mid, rates@));
        match sent {
            Ok(_) => {},
            Err(e) => {
                return Err(e);
            },
        }
        assert(mid.seats().len() == mid.base.distribution@.len());
        assert forall|j: int|
            0 <= j < mid.persons@.len() && (#[trigger] mid.persons@[j]).person_type
                == PersonType::Card implies hint_chance_ok(&mid, data, cons, mid.persons@[j]) by {
            assert(mid.persons@[j] == unhinted(old(self).persons@[j]));
            assert(hint_chance_ok(old(self), data, cons, old(self).persons@[j]));
            lemma_same_hint_bonus(old(self).base.deck@, mid.base.deck@, mid.persons@[j].card_id);
        }
        assert forall|d: int| 0 <= d < mid.base.deck@.len() implies (
        #[trigger] mid.base.deck@[d]).ranked() by {
            assert(same_card(old(self).base.deck@[d], mid.base.deck@[d]));
            assert(effect_computable(&old(self).base.deck@[d], old(self).base.deck@, 0));
        }
        self.distribute_hint(data, cons, rng);
        assert(hinted(mid, *self, data, cons));
        Ok(())
    }
}

/// The answer that counts for the pick of regions: the first where the fixed table decides,
/// otherwise the one that was chosen.
pub open spec fn region_choice(turn: int, strategy: RamenRegionStrategy, selection: usize, i: int) -> bool {
    i == if region_year(turn) matches Some(y) && fixed_decides(y, strategy) {
        0
    } else {
        selection as int
    }
}

/// Every kind is shown, at one of the first three trainings.
pub open spec fn all_kinds_shown(kinds: [FeelingType; 5]) -> bool {
    kinds@[0] != kinds@[1] && kinds@[0] != kinds@[2] && kinds@[1] != kinds@[2]
}

/// The kinds with given numbers.
fn feeling_kinds(raw: &[i32; 5]) -> (kinds: [FeelingType; 5])
    requires
        covers_all_kinds(raw@),
    ensures
        forall|i: int| 0 <= i < 5 ==> (#[trigger] kinds@[i]).idx() == raw@[i],
        all_kinds_shown(kinds),
{
    let mut kinds: [FeelingType; 5] = [FeelingType::A; 5];
    let mut i: usize = 0;
    while i < 5
        invariant
            i <= 5,
            covers_all_kinds(raw@),
            forall|j: int| 0 <= j < i ==> (#[trigger] kinds@[j]).idx() == raw@[j],
        decreases 5 - i,
    {
        assert(0 <= raw@[i as int] < 3);
        kinds[i] = match FeelingType::try_from(raw[i]) {
            Some(k) => k,
            None => FeelingType::A,
        };
        i = i + 1;
    }
    let ghost first = raw@.take(3);
    assert(first[0] == raw@[0] && first[1] == raw@[1] && first[2] == raw@[2]);
    assert(kinds@[0].idx() != kinds@[1].idx() && kinds@[0].idx() != kinds@[2].idx()
        && kinds@[1].idx() != kinds@[2].idx());
    kinds
}

/// The trainings have been emptied and hints hidden.
pub open spec fn emptied(before: RamenGame, after: RamenGame) -> bool {
    &&& after.seats() == seq![
        Seq::<i32>::empty(),
        Seq::<i32>::empty(),
        Seq::<i32>::empty(),
        Seq::<i32>::empty(),
        Seq::<i32>::empty(),
    ]
    &&& after.persons@ == all_unhinted(before.persons@)
    &&& after == (RamenGame {
        base: BaseGame { distribution: after.base.distribution, ..before.base },
        persons: after.persons,
        ..before
    })
}

/// Everyone who could come stands at a training, stays away, or has been turned away by those sent
/// before them.
pub open spec fn everyone_sent(
    before: RamenGame,
    after: RamenGame,
    rates: Seq<SpecialityRate>,
) -> bool {
    all_sent(
        after.persons@,
        rates,
        after.seats(),
        after.ramen.absent_cards@,
        before.base.turn as int,
        6,
        0,
    )
}

/// The kinds shown at the trainings have been drawn, each at one training or more, and persons have
/// been sent to the trainings, given everyone's speciality rate.
pub open spec fn distributed(
    before: RamenGame,
    after: RamenGame,
    rates: Seq<SpecialityRate>,
) -> bool {
    &&& after.persons@ == all_unhinted(before.persons@)
    &&& after.ramen.train_feeling_type matches Some(kinds) && all_kinds_shown(kinds)
    &&& round_ok(
        after.persons@,
        after.seats(),
        after.ramen.absent_cards@,
        before.base.turn as int,
        6,
        0,
    )
    &&& chances_kept(
        after.persons@,
        rates,
        before.base.absent_rate_drop as int,
        after.seats(),
        after.ramen.absent_cards@,
    )
    &&& deck_kept(before.base.deck@, after.base.deck@)
    &&& seated_rated(after.persons@, after.base.deck@, after.seats())
    &&& after == (RamenGame {
        base: BaseGame {
            distribution: after.base.distribution,
            deck: after.base.deck,
            ..before.base
        },
        persons: after.persons,
        ramen: RamenState {
            absent_cards: after.ramen.absent_cards,
            train_feeling_type: after.ramen.train_feeling_type,
            ..before.ramen
        },
        ..before
    })
}

/// Hints have been drawn.
pub open spec fn hinted(before: RamenGame, after: RamenGame, data: &RamenScenarioData, cons: &GameConstants) -> bool {
    &&& after.persons@.len() == before.persons@.len()
    &&& forall|j: int|
        0 <= j < before.persons@.len() ==> hint_drawn(
            &before,
            data,
            cons,
            j,
            #[trigger] after.persons@[j],
        )
    &&& after == (RamenGame { persons: after.persons, ..before })
}

/// The player picks among the options of an event: it is theirs to pick, and there are several.
pub open spec fn asks_player(event: &EventData) -> bool {
    event.player_select && event.choices@.len() > 1
}

/// Whether the player picks among the options of an event.
pub fn event_asks(event: &EventData) -> (b: bool)
    ensures
        b == asks_player(event),
{
    event.player_select && event.choices.len() > 1
}

/// The option of an event that takes place: the player's where they are asked, the first where
/// they are not. Refused for an answer outside the options.
pub fn event_option(event: &EventData, selection: usize) -> (r: Result<usize, SimError>)
    ensures
        match r {
            Ok(i) => if asks_player(event) {
                i == selection && i < event.choices@.len()
            } else {
                i == 0
            },
            Err(e) => asks_player(event) && selection >= event.choices@.len() && e
                == (SimError::ChoiceOutOfRange {
                selection,
                len: event.choices@.len() as usize,
            }),
        },
{
    if event_asks(event) {
        if selection >= event.choices.len() {
            return Err(
                SimError::ChoiceOutOfRange { selection, len: event.choices.len() },
            );
        }
        Ok(selection)
    } else {
        Ok(0)
    }
}

proof fn lemma_single_op(b: bool, op: OpView, a: ActionView)
    ensures
        op_if(b, op).contains(a) <==> b && a == (ActionView {
            operation: op,
            ramen: None,
            special_targets: None,
        }),
        op_if(b, op).len() == if b {
            1int
        } else {
            0
        },
{
    if b {
        assert(op_if(b, op)[0] == ActionView::plain(op));
    }
}

proof fn lemma_train_actions(friend: bool, ill: bool, camp: bool, race: bool, a: ActionView)
    ensures
        train_actions(friend, ill, camp, race).contains(a) <==> {
            &&& a.ramen is None
            &&& a.special_targets is None
            &&& match a.operation {
                OpView::Train(_) => true,
                OpView::Rest => true,
                OpView::Race => race,
                OpView::NormalOuting => !camp,
                OpView::FriendOuting => friend,
                OpView::Clinic => ill && !camp,
                _ => false,
            }
        },
        train_actions(friend, ill, camp, race).len() == 6 + (if race {
            1int
        } else {
            0
        }) + (if camp {
            0int
        } else {
            1
        }) + (if friend {
            1int
        } else {
            0
        }) + (if ill && !camp {
            1int
        } else {
            0
        }),
{
    let s0 = op_if(true, OpView::Train(TrainingType::Speed));
    let s1 = op_if(true, OpView::Train(TrainingType::Stamina));
    let s2 = op_if(true, OpView::Train(TrainingType::Power));
    let s3 = op_if(true, OpView::Train(TrainingType::Guts));
    let s4 = op_if(true, OpView::Train(TrainingType::Wisdom));
    let s5 = op_if(race, OpView::Race);
    let s6 = op_if(true, OpView::Rest);
    let s7 = op_if(!camp, OpView::NormalOuting);
    let s8 = op_if(friend, OpView::FriendOuting);
    let s9 = op_if(ill && !camp, OpView::Clinic);
    lemma_single_op(true, OpView::Train(TrainingType::Speed), a);
    lemma_single_op(true, OpView::Train(TrainingType::Stamina), a);
    lemma_single_op(true, OpView::Train(TrainingType::Power), a);
    lemma_single_op(true, OpView::Train(TrainingType::Guts), a);
    lemma_single_op(true, OpView::Train(TrainingType::Wisdom), a);
    lemma_single_op(race, OpView::Race, a);
    lemma_single_op(true, OpView::Rest, a);
    lemma_single_op(!camp, OpView::NormalOuting, a);
    lemma_single_op(friend, OpView::FriendOuting, a);
    lemma_single_op(ill && !camp, OpView::Clinic, a);
    lemma_in_either(s0, s1, a);
    lemma_in_either(s0 + s1, s2, a);
    lemma_in_either(s0 + s1 + s2, s3, a);
    lemma_in_either(s0 + s1 + s2 + s3, s4, a);
    lemma_in_either(s0 + s1 + s2 + s3 + s4, s5, a);
    lemma_in_either(s0 + s1 + s2 + s3 + s4 + s5, s6, a);
    lemma_in_either(s0 + s1 + s2 + s3 + s4 + s5 + s6, s7, a);
    lemma_in_either(s0 + s1 + s2 + s3 + s4 + s5 + s6 + s7, s8, a);
    lemma_in_either(s0 + s1 + s2 + s3 + s4 + s5 + s6 + s7 + s8, s9, a);
    if let OpView::Train(t) = a.operation {
        match t {
            TrainingType::Speed => {},
            TrainingType::Stamina => {},
            TrainingType::Power => {},
            TrainingType::Guts => {},
            TrainingType::Wisdom => {},
        }
    }
}

/// On a turn without an obligatory race every training and rest are on offer, a race on turns
/// thirteen to seventy-one, an outing alone outside the summer camp, the doctor for the ill outside
/// the summer camp, an outing with the friend once these are open and while some are left, and
/// nothing else; each of them once.
pub proof fn law_operations_on_offer(game: &RamenGame, a: ActionView)
    requires
        !(game.base.turn == 73 || game.base.turn == 75 || game.base.turn == 77),
        11 <= game.base.turn <= 72 ==> (game.base.uma.career_races >> ((game.base.turn
            - 11) as u64)) & 1 != 1,
    ensures
        game.turn_actions().contains(a) <==> {
            &&& a.ramen is None
            &&& a.special_targets is None
            &&& match a.operation {
                OpView::Train(_) => true,
                OpView::Rest => true,
                OpView::Race => 13 <= game.base.turn <= 71,
                OpView::NormalOuting => !(36 <= game.base.turn <= 39 || 60 <= game.base.turn <= 63),
                OpView::Clinic => game.base.uma.flags.ill && !(36 <= game.base.turn <= 39 || 60
                    <= game.base.turn <= 63),
                OpView::FriendOuting => game.base.friend.out_state == FriendOutState::AfterUnlock
                    && game.base.friend.outings_left > 0,
                _ => false,
            }
        },
        game.turn_actions().len() == 6 + (if 13 <= game.base.turn <= 71 {
            1int
        } else {
            0
        }) + (if 36 <= game.base.turn <= 39 || 60 <= game.base.turn <= 63 {
            0int
        } else if game.base.uma.flags.ill {
            2
        } else {
            1
        }) + (if game.base.friend.out_state == FriendOutState::AfterUnlock
            && game.base.friend.outings_left > 0 {
            1int
        } else {
            0
        }),
{
    lemma_train_actions(
        game.base.friend.out_state == FriendOutState::AfterUnlock && game.base.friend.outings_left
            > 0,
        game.base.uma.flags.ill,
        camp_turn(game.base.turn as int),
        13 <= game.base.turn <= 71,
        a,
    );
}

/// Where a race is obligatory, it is the only operation on offer.
pub proof fn law_obligatory_race_stands_alone(game: &RamenGame, a: ActionView)
    requires
        game.base.turn == 73 || game.base.turn == 75 || game.base.turn == 77 || (11
            <= game.base.turn <= 72 && (game.base.uma.career_races >> ((game.base.turn
            - 11) as u64)) & 1 == 1),
    ensures
        game.turn_actions().len() == 1,
        game.turn_actions().contains(a) <==> a.operation == OpView::Race && a.ramen is None
            && a.special_targets is None,
{
    assert(game.turn_actions()[0] == ActionView::plain(OpView::Race));
}

/// The offer at the stage of the training is that of the turn, whatever bowl was eaten, and none of
/// its answers names a bowl or hidden flavours.
pub proof fn law_training_stage_offers_plain_operations(
    game: &RamenGame,
    data: &RamenScenarioData,
    strategy: RamenRegionStrategy,
    fixed: Option<&Vec<[usize; 3]>>,
    list: Seq<ActionView>,
    i: int,
)
    requires
        game.stage == RamenStage::Train,
        game.answers(data, strategy, fixed, list),
        0 <= i < list.len(),
    ensures
        list[i].ramen is None,
        list[i].special_targets is None,
        list.contains(ActionView { operation: OpView::Rest, ramen: None, special_targets: None })
            || list[0].operation == OpView::Race,
{
    let race = game.base.uma.race_turn(game.base.turn as int);
    assert(list.contains(list[i]));
    if race {
        law_obligatory_race_stands_alone(game, list[i]);
        assert(list[0] == ActionView::plain(OpView::Race));
    } else {
        law_operations_on_offer(game, list[i]);
        law_operations_on_offer(
            game,
            (ActionView { operation: OpView::Rest, ramen: None, special_targets: None }),
        );
    }
}

/// The pick of a bowl always allows none; every bowl on offer is one of the three regions of the
/// year, and on turns without bowls none is the only answer.
pub proof fn law_bowls_on_offer(
    game: &RamenGame,
    data: &RamenScenarioData,
    strategy: RamenRegionStrategy,
    fixed: Option<&Vec<[usize; 3]>>,
    list: Seq<ActionView>,
    i: int,
)
    requires
        game.stage == RamenStage::RamenSelect,
        game.answers(data, strategy, fixed, list),
        0 <= i < list.len(),
    ensures
        list[0].ramen is None,
        list[i].operation == OpView::StageOnly,
        list[i].special_targets is None,
        list[i].ramen is None <==> i == 0,
        list[i].ramen matches Some(r) ==> (r == game.ramen.selected_regions@[0] || r
            == game.ramen.selected_regions@[1] || r == game.ramen.selected_regions@[2]) && 2
            <= game.base.turn && !(72 <= game.base.turn <= 77),
        game.base.turn < 2 || 72 <= game.base.turn <= 77 ==> list.len() == 1,
        list.len() <= 4,
{
    let all = available(data, &game.ramen, game.ramen.selected_regions@);
    if i > 0 {
        assert(list[i] == ActionView::bowl(Some(all[i - 1])));
    }
}

/// Every bowl of the year that can be made is on offer on a turn with bowls.
pub proof fn law_makeable_bowls_are_on_offer(
    game: &RamenGame,
    data: &RamenScenarioData,
    strategy: RamenRegionStrategy,
    fixed: Option<&Vec<[usize; 3]>>,
    list: Seq<ActionView>,
    k: int,
)
    requires
        game.stage == RamenStage::RamenSelect,
        game.answers(data, strategy, fixed, list),
        2 <= game.base.turn,
        !(72 <= game.base.turn <= 77),
        0 <= k < 3,
    ensures
        list.contains(
            (ActionView {
                operation: OpView::StageOnly,
                ramen: Some(game.ramen.selected_regions@[k]),
                special_targets: None,
            }),
        ) <==> makeable(data, &game.ramen, game.ramen.selected_regions@[k]),
{
    let regions = game.ramen.selected_regions@;
    let all = available(data, &game.ramen, regions);
    let b0 = bowl_if(data, &game.ramen, regions[0]);
    let b1 = bowl_if(data, &game.ramen, regions[1]);
    let r = regions[k];
    let want = ActionView::bowl(Some(r));
    if makeable(data, &game.ramen, r) {
        let at = if k == 0 {
            0
        } else if k == 1 {
            b0.len() as int
        } else {
            (b0.len() + b1.len()) as int
        };
        assert(all[at] == r);
        assert(list[at + 1] == want);
    }
    if list.contains(want) {
        let i = choose|i: int| 0 <= i < list.len() && list[i] == want;
        assert(i > 0);
        assert(list[i] == ActionView::bowl(Some(all[i - 1])));
        assert(all[i - 1] == r);
        assert(makeable(data, &game.ramen, all[i - 1]));
    }
}

/// A decision changes only what it is about: the bowl in question, the hidden flavours, the regions
/// or the super ramen. Neither the stocks nor the character, nor anything else in the career moves.
pub proof fn law_selection_costs_nothing(game: RamenGame, a: ActionView, after: RamenGame)
    requires
        game.selection_fault(a) is None,
        game.selected(a, after),
    ensures
        after.base == game.base,
        after.persons == game.persons,
        after.stage == game.stage,
        after.ramen.feeling_stock == game.ramen.feeling_stock,
        after.ramen.feeling_slot == game.ramen.feeling_slot,
        after.ramen.feeling_queue == game.ramen.feeling_queue,
        after.ramen.special_feeling == game.ramen.special_feeling,
        after.ramen.scenario_pt == game.ramen.scenario_pt,
        after.ramen.current_ramen == game.ramen.current_ramen,
        game.stage == RamenStage::RamenSelect ==> after.ramen.pending_ramen == a.ramen,
        game.stage == RamenStage::SpecialSelect ==> (a.special_targets matches Some(t) && t
            =~= seq![
            after.ramen.pending_special_targets@[0] as int,
            after.ramen.pending_special_targets@[1] as int,
            after.ramen.pending_special_targets@[2] as int,
        ]),
        a.operation matches OpView::SuperRamenSelect(i) ==> after.ramen.super_ramen == Some(i),
        a.operation matches OpView::RegionSelect(ids) ==> {
            &&& after.ramen.selected_regions@ == ids
            &&& game.base.turn == 2 ==> after.ramen.yearly_selected_regions@[0]@ == ids
            &&& game.base.turn == 23 ==> after.ramen.yearly_selected_regions@[1]@ == ids
            &&& game.base.turn == 47 ==> after.ramen.yearly_selected_regions@[2]@ == ids
        },
{
}

/// Regions can be picked on turns two, twenty-three and forty-seven only.
pub proof fn law_region_picks_have_their_turns(game: RamenGame, ids: Seq<usize>)
    requires
        game.stage == RamenStage::RegionSelect,
    ensures
        game.selection_fault(
            (ActionView {
                operation: OpView::RegionSelect(ids),
                ramen: None,
                special_targets: None,
            }),
        ) is None <==> game.base.turn == 2 || game.base.turn == 23 || game.base.turn == 47,
{
}

/// A distribution seats the persons and changes nothing else about them or the career, but that all
/// hints are gone: five at most stand at a training, nobody at two, nobody both seated and away, and
/// the first three trainings show different kinds.
pub proof fn law_distribution_seats_everyone_once(
    before: RamenGame,
    after: RamenGame,
    rates: Seq<SpecialityRate>,
    t1: int,
    t2: int,
    p: i32,
    i: int,
)
    requires
        distributed(before, after, rates),
        0 <= t1 < t2 < 5,
        0 <= i < before.persons@.len(),
    ensures
        after.base.distribution@.len() == 5,
        after.base.distribution@[t1]@.len() <= 5 && after.base.distribution@[t2]@.len() <= 5,
        after.base.distribution@[t1]@.no_duplicates(),
        !(after.base.distribution@[t1]@.contains(p) && after.base.distribution@[t2]@.contains(p)),
        after.ramen.absent_cards@.contains(p) ==> !after.base.distribution@[t1]@.contains(p)
            && !after.base.distribution@[t2]@.contains(p),
        after.persons@.len() == before.persons@.len(),
        !after.persons@[i].is_hint,
        after.persons@[i].friendship == before.persons@[i].friendship,
        after.persons@[i].train_type == before.persons@[i].train_type,
        after.persons@[i].person_type == before.persons@[i].person_type,
        after.persons@[i].card_id == before.persons@[i].card_id,
        after.ramen.train_feeling_type matches Some(k) && k@[0] != k@[1] && k@[0] != k@[2] && k@[1]
            != k@[2],
        after.base.uma == before.base.uma,
        after.base.turn == before.base.turn,
        after.stage == before.stage,
        after.ramen.feeling_stock == before.ramen.feeling_stock,
        after.ramen.feeling_slot == before.ramen.feeling_slot,
        after.ramen.special_feeling == before.ramen.special_feeling,
{
    let s = after.seats();
    law_round_is_orderly(
        after.persons@,
        s,
        after.ramen.absent_cards@,
        before.base.turn as int,
        t1,
        t2,
        p,
    );
    assert(s.len() == after.base.distribution@.len());
    assert(s[t1] == after.base.distribution@[t1]@ && s[t2] == after.base.distribution@[t2]@);
}

/// Where a race is obligatory nobody comes to the trainings, and all hints are gone.
pub proof fn law_race_turn_leaves_trainings_empty(before: RamenGame, after: RamenGame, t: int, i: int)
    requires
        emptied(before, after),
        0 <= t < 5,
        0 <= i < before.persons@.len(),
    ensures
        after.base.distribution@.len() == 5,
        after.base.distribution@[t]@.len() == 0,
        !after.persons@[i].is_hint,
        after.persons@[i].friendship == before.persons@[i].friendship,
        after.persons@[i].person_type == before.persons@[i].person_type,
        after.ramen == before.ramen,
        after.base.uma == before.base.uma,
{
    let s = after.seats();
    assert(s.len() == 5);
    assert(s[t] == after.base.distribution@[t]@);
}

/// Drawing hints changes nothing in the career but the hints of cards.
pub proof fn law_hints_change_nothing_else(
    before: RamenGame,
    after: RamenGame,
    data: &RamenScenarioData,
    cons: &GameConstants,
    i: int,
)
    requires
        hinted(before, after, data, cons),
        0 <= i < before.persons@.len(),
    ensures
        after.base == before.base,
        after.ramen == before.ramen,
        after.stage == before.stage,
        after.persons@.len() == before.persons@.len(),
        before.persons@[i].person_type != PersonType::Card ==> after.persons@[i]
            == before.persons@[i],
        after.persons@[i].friendship == before.persons@[i].friendship,
        after.persons@[i].card_id == before.persons@[i].card_id,
{
    assert(hint_drawn(&before, data, cons, i, after.persons@[i]));
}

/// Answers can always be listed but for regions off their turns or without their table, and for hidden
/// flavours without a bowl or for a bowl that does not exist.
pub proof fn law_when_answers_cannot_be_listed(
    game: &RamenGame,
    data: &RamenScenarioData,
    strategy: RamenRegionStrategy,
    fixed: Option<&Vec<[usize; 3]>>,
)
    ensures
        game.stage != RamenStage::RegionSelect && game.stage != RamenStage::SpecialSelect
            ==> game.answers_fault(data, strategy, fixed) is None,
        game.stage == RamenStage::RegionSelect && game.base.turn != 2 && game.base.turn != 23
            && game.base.turn != 47 ==> game.answers_fault(data, strategy, fixed) == Some(
            SimError::TurnOutOfRange { turn: game.base.turn },
        ),
        game.stage == RamenStage::RegionSelect && (game.base.turn == 2 || game.base.turn == 23)
            ==> game.answers_fault(data, strategy, fixed) is None,
        game.stage == RamenStage::RegionSelect && game.base.turn == 47 && strategy
            == RamenRegionStrategy::Fixed && fixed is None ==> game.answers_fault(
            data,
            strategy,
            fixed,
        ) == Some(SimError::NoFixedRegions),
        game.stage == RamenStage::RegionSelect && game.base.turn == 47 && strategy
            == RamenRegionStrategy::Fixed ==> (fixed matches Some(table) ==> (game.answers_fault(
            data,
            strategy,
            fixed,
        ) is None <==> table@.len() > 0)),
        game.stage == RamenStage::RegionSelect && game.base.turn == 47 && strategy
            != RamenRegionStrategy::Fixed ==> game.answers_fault(data, strategy, fixed) is None,
        game.stage == RamenStage::SpecialSelect && game.ramen.pending_ramen is None
            ==> game.answers_fault(data, strategy, fixed) == Some(SimError::NoPendingRamen),
        game.stage == RamenStage::SpecialSelect && (game.ramen.pending_ramen matches Some(r) && r
            >= 20) ==> game.answers_fault(data, strategy, fixed) is Some,
{
}

/// A decision is accepted at its own stage only: bowls and hidden flavours at theirs, regions and the
/// super ramen at theirs; operations of a turn are no decisions of this sort.
pub proof fn law_decisions_belong_to_their_stages(game: &RamenGame, a: ActionView)
    ensures
        game.stage == RamenStage::Train || game.stage == RamenStage::Begin || game.stage
            == RamenStage::NextTurn ==> game.selection_fault(a) == Some(SimError::WrongStage),
        game.selection_fault(a) is None ==> match a.operation {
            OpView::StageOnly => game.stage == RamenStage::RamenSelect || (game.stage
                == RamenStage::SpecialSelect && a.special_targets is Some),
            OpView::RegionSelect(_) => game.stage == RamenStage::RegionSelect,
            OpView::SuperRamenSelect(_) => game.stage == RamenStage::SuperRamenSelect,
            _ => false,
        },
        game.stage == RamenStage::RamenSelect && a.operation == OpView::StageOnly
            ==> game.selection_fault(a) is None,
        game.stage == RamenStage::SuperRamenSelect && a.operation is SuperRamenSelect
            ==> game.selection_fault(a) is None,
{
}

/// With a fixed table the third year takes its first entry whatever was picked; otherwise the pick
/// counts.
pub proof fn law_fixed_regions_ignore_the_pick(
    turn: int,
    strategy: RamenRegionStrategy,
    selection: usize,
    i: int,
)
    requires
        region_choice(turn, strategy, selection, i),
    ensures
        turn == 47 && strategy == RamenRegionStrategy::Fixed ==> i == 0,
        turn != 47 || strategy != RamenRegionStrategy::Fixed ==> i == selection,
{
}

/// An event asks only where the player may pick and there is more than one option.
pub proof fn law_single_options_are_not_asked(event: &EventData)
    ensures
        asks_player(event) <==> event.player_select && event.choices@.len() >= 2,
{
}

/// After a distribution everyone who can come and finds room is at a training or recorded as away, one
/// of the two; bystanders always come.
pub proof fn law_everyone_is_accounted_for(
    before: RamenGame,
    after: RamenGame,
    rates: Seq<SpecialityRate>,
    p: i32,
)
    requires
        distributed(before, after, rates),
        everyone_sent(before, after, rates),
        0 <= p < after.persons@.len(),
        after.persons@[p as int].person_type == PersonType::Card || after.persons@[p as int].person_type
            == PersonType::Npc,
        !present(after.seats(), p) ==> forall|t: int|
            0 <= t < 5 ==> seat_free(after.persons@, #[trigger] after.seats()[t], p),
    ensures
        present(after.seats(), p) <==> !after.ramen.absent_cards@.contains(p),
        after.persons@[p as int].person_type == PersonType::Npc ==> present(after.seats(), p),
{
    law_nobody_is_forgotten(
        after.persons@,
        rates,
        after.seats(),
        after.ramen.absent_cards@,
        before.base.turn as int,
        p,
    );
}

/// Once a bowl is picked, exactly the hidden flavours with which it can be made are on offer, each with
/// this bowl.
pub proof fn law_flavours_on_offer(
    game: &RamenGame,
    data: &RamenScenarioData,
    strategy: RamenRegionStrategy,
    fixed: Option<&Vec<[usize; 3]>>,
    list: Seq<ActionView>,
    r: usize,
    t: Seq<int>,
)
    requires
        game.stage == RamenStage::SpecialSelect,
        game.ramen.pending_ramen == Some(r),
        game.answers(data, strategy, fixed, list),
        t.len() == 3,
        game.ramen.feeling_stock@[0] >= 0,
        game.ramen.feeling_stock@[1] >= 0,
        game.ramen.feeling_stock@[2] >= 0,
    ensures
        list.contains(
            (ActionView {
                operation: OpView::StageOnly,
                ramen: Some(r),
                special_targets: Some(t),
            }),
        ) <==> {
            let recipe = data.recipe(r as int)@;
            &&& 0 <= t[0] <= recipe[0] && 0 <= t[1] <= recipe[1] && 0 <= t[2] <= recipe[2]
            &&& game.ramen.feeling_stock@[0] + t[0] >= recipe[0]
            &&& game.ramen.feeling_stock@[1] + t[1] >= recipe[1]
            &&& game.ramen.feeling_stock@[2] + t[2] >= recipe[2]
            &&& t[0] + t[1] + t[2] <= 2
            &&& t[0] + t[1] + t[2] <= game.ramen.special_feeling
        },
        forall|i: int|
            0 <= i < list.len() ==> (#[trigger] list[i]).ramen == Some(r) && list[i].operation
                == OpView::StageOnly,
{
    let legal = legal_now(data, &game.ramen, r);
    let want = ActionView {
        operation: OpView::StageOnly,
        ramen: Some(r),
        special_targets: Some(t),
    };
    law_legal_flavours(
        ints(game.ramen.feeling_stock),
        game.ramen.special_feeling as int,
        ints(data.recipe(r as int)),
        t,
    );
    if legal.contains(t) {
        let i = choose|i: int| 0 <= i < legal.len() && legal[i] == t;
        assert(list[i] == want);
    }
    if list.contains(want) {
        let i = choose|i: int| 0 <= i < list.len() && list[i] == want;
        assert(legal[i] == t);
    }
}

/// Regions are offered as picks of their combinations, in their order.
pub proof fn law_regions_on_offer(
    game: &RamenGame,
    data: &RamenScenarioData,
    strategy: RamenRegionStrategy,
    fixed: Option<&Vec<[usize; 3]>>,
    list: Seq<ActionView>,
    i: int,
)
    requires
        game.stage == RamenStage::RegionSelect,
        game.answers(data, strategy, fixed, list),
        0 <= i < list.len(),
    ensures
        list[i].ramen is None,
        list[i].operation matches OpView::RegionSelect(ids) && ids.len() == 3 && (game.base.turn == 2
            ==> ids[0] < ids[1] < ids[2] <= 4) && (game.base.turn == 23 ==> 5 <= ids[0] < ids[1]
            < ids[2] <= 9) && (game.base.turn == 47 && strategy != RamenRegionStrategy::Fixed ==> 10
            <= ids[0] < ids[1] < ids[2] <= 19),
{
    let combos = choose|combos: Seq<[usize; 3]>| #[trigger]
        region_offer(game.base.turn as int, strategy, fixed, combos) && list == region_answers(
            combos,
        );
    law_region_offers(game.base.turn as int, strategy, fixed, combos, i);
}

/// Outside the stages of decisions the operations of the turn are listed with each bowl that can be made
/// and without, whether a race is obligatory or not.
pub proof fn law_overview_lists_operations_with_bowls(
    game: &RamenGame,
    data: &RamenScenarioData,
    strategy: RamenRegionStrategy,
    fixed: Option<&Vec<[usize; 3]>>,
    list: Seq<ActionView>,
    r: usize,
)
    requires
        game.stage == RamenStage::Begin || game.stage == RamenStage::Distribute,
        game.answers(data, strategy, fixed, list),
    ensures
        list.contains((ActionView { operation: OpView::Rest, ramen: None, special_targets: None })),
        list.contains(
            (ActionView { operation: OpView::Rest, ramen: Some(r), special_targets: None }),
        ) <==> 2 <= game.base.turn && !(72 <= game.base.turn <= 77) && (exists|k: int|
            0 <= k < 3 && #[trigger] game.ramen.selected_regions@[k] == r) && makeable(
            data,
            &game.ramen,
            r,
        ),
{
    let base = game.open_actions();
    let friend = game.base.friend.out_state == FriendOutState::AfterUnlock
        && game.base.friend.outings_left > 0;
    let camp = camp_turn(game.base.turn as int);
    let race = 13 <= game.base.turn <= 71;
    let all = if bowl_turn(game.base.turn as int) {
        available(data, &game.ramen, game.ramen.selected_regions@)
    } else {
        Seq::empty()
    };
    assert forall|i: int| 0 <= i < base.len() implies (#[trigger] base[i]).ramen is None
        && base[i].special_targets is None by {
        assert(base.contains(base[i]));
        lemma_train_actions(friend, game.base.uma.flags.ill, camp, race, base[i]);
    }
    let rest = ActionView { operation: OpView::Rest, ramen: None, special_targets: None };
    lemma_train_actions(friend, game.base.uma.flags.ill, camp, race, rest);
    let i = choose|i: int| 0 <= i < base.len() && base[i] == rest;
    assert(base[i].operation == OpView::Rest);
    law_operations_with_bowls(base, all, OpView::Rest, r);
    let regions = game.ramen.selected_regions@;
    let b0 = bowl_if(data, &game.ramen, regions[0]);
    let b1 = bowl_if(data, &game.ramen, regions[1]);
    let b2 = bowl_if(data, &game.ramen, regions[2]);
    if bowl_turn(game.base.turn as int) {
        if all.contains(r) {
            let k = choose|k: int| 0 <= k < all.len() && all[k] == r;
            if k < b0.len() {
                assert(regions[0] == r);
            } else if k < b0.len() + b1.len() {
                assert(regions[1] == r);
            } else {
                assert(regions[2] == r);
            }
        }
        if makeable(data, &game.ramen, r) {
            if regions[0] == r {
                assert(all[0] == r);
            }
            if regions[1] == r {
                assert(all[b0.len() as int] == r);
            }
            if regions[2] == r {
                assert(all[(b0.len() + b1.len()) as int] == r);
            }
        }
    }
}

/// No chance, no outcome: once absence has dropped by fifty or more no card stays away.
pub proof fn law_cards_come_when_absence_has_dropped(
    before: RamenGame,
    after: RamenGame,
    rates: Seq<SpecialityRate>,
    p: i32,
)
    requires
        distributed(before, after, rates),
        before.base.absent_rate_drop >= 50,
        after.ramen.absent_cards@.contains(p),
    ensures
        0 <= p < after.persons@.len(),
        after.persons@[p as int].person_type != PersonType::Card,
        after.persons@[p as int].person_type != PersonType::Npc,
{
    let away = after.ramen.absent_cards@;
    let k = choose|k: int| 0 <= k < away.len() && away[k] == p;
    assert(absent_weight_of(
        after.persons@[away[k] as int].person_type,
        before.base.absent_rate_drop as int,
    ) > 0);
    assert(!present(after.seats(), away[k]));
}

/// A distribution changes nothing about the cards of the deck but what they keep of their contribution.
pub proof fn law_distribution_keeps_the_deck(
    before: RamenGame,
    after: RamenGame,
    rates: Seq<SpecialityRate>,
    d: int,
)
    requires
        distributed(before, after, rates),
        0 <= d < before.base.deck@.len(),
    ensures
        after.base.deck@.len() == before.base.deck@.len(),
        after.base.deck@[d].card_id == before.base.deck@[d].card_id,
        after.base.deck@[d].friendship == before.base.deck@[d].friendship,
        after.base.deck@[d].card_type == before.base.deck@[d].card_type,
        after.base.deck@[d].rank == before.base.deck@[d].rank,
{
    assert(same_card(before.base.deck@[d], after.base.deck@[d]));
}

} // verus!
