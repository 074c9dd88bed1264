use rand::rngs::StdRng;
use vstd::prelude::*;
use super::action::{
    action_views,
    combined_answers,
    list_combined_ramen_select_actions,
    RamenAction,
};
use super::clones::{
    absent_cards_of,
    clone_fits,
    clone_run,
    clone_step,
    first_absent,
    fresh_board,
    law_room_for_a_clone,
    pick_ok,
    region_cloned,
};
use super::distribution::is_kind;
use super::persons::{eaten_bonds, law_bowl_brings_cards_closer, Bonds};
use super::rules::{
    addable,
    calc_ramen_pt_gain,
    check_rmj,
    consume_fault,
    consume_for_ramen,
    ints,
    law_legal_list_is_complete,
    legal_targets,
    list_special_targets_for,
    net_cost,
    pt_gain,
    recipe_fault,
    rmj_outcome,
    rows,
    sum3,
    taken_out,
    RmjResult,
};
use super::story::{find_rmj_event, rmj_event, rmj_event_id, rmj_outcome_of, uma_rmj};
use super::{bowl_turn, settled_year, year_of, RamenGame, RamenStage, RamenState, MAX_TURN};
use crate::error::SimError;
use crate::game::base::person::{BasePerson, PersonType};
use crate::game::base::state::{times, BaseGame};
use crate::game::uma::{races_between, Uma};
use crate::gamedata::ramen::RamenScenarioData;
use crate::gamedata::uma::UmaData;

verus! {

// ========== Eating ==========

/// What comes of eating the bowl that was picked: it is refused for the reason given, or eaten.
pub open spec fn ground_result(game: &RamenGame, data: &RamenScenarioData) -> Result<(), SimError> {
    match game.ramen.pending_ramen {
        Some(r) => match consume_fault(
            data,
            &game.ramen,
            r,
            ints(game.ramen.pending_special_targets),
        ) {
            Some(e) => Err(e),
            None => Ok(()),
        },
        None => Ok(()),
    }
}

/// The bowl has been paid for and eaten.
pub open spec fn paid(before: RamenState, after: RamenState, data: &RamenScenarioData, r: usize) -> bool {
    let t = ints(before.pending_special_targets);
    let net = net_cost(ints(data.recipe(r as int)), t);
    &&& after.special_feeling == before.special_feeling - sum3(t)
    &&& ints(after.feeling_stock) == seq![
        before.feeling_stock@[0] - net[0],
        before.feeling_stock@[1] - net[1],
        before.feeling_stock@[2] - net[2],
    ]
    &&& after.feeling_queue@ == taken_out(before.feeling_queue@, net)
    &&& after == (RamenState {
        feeling_stock: after.feeling_stock,
        feeling_queue: after.feeling_queue,
        special_feeling: after.special_feeling,
        current_ramen: Some(r),
        ..before
    })
}

/// Bonds after eating.
pub open spec fn bonds_are(game: RamenGame, b: Bonds) -> bool {
    game.persons@ == b.persons && game.base.deck@ == b.deck
}

/// Everything that eating does has been done: the bowl is paid for, clones have come, bonds have
/// risen. Without a bowl only the super ramen lets bonds rise. A refused bowl changes nothing.
pub open spec fn grounded(
    before: RamenGame,
    after: RamenGame,
    data: &RamenScenarioData,
    picks: Seq<Option<i32>>,
) -> bool {
    match ground_result(&before, data) {
        Err(_) => after == before,
        Ok(_) => {
            &&& match before.ramen.pending_ramen {
                Some(r) => {
                    &&& paid(before.ramen, after.ramen, data, r)
                    &&& region_cloned(&before, after.seats(), data, r, picks)
                    &&& bonds_are(after, eaten_bonds(&before, data, true))
                },
                None => {
                    &&& after.ramen == before.ramen
                    &&& after.base.distribution == before.base.distribution
                    &&& bonds_are(
                        after,
                        eaten_bonds(&before, data, before.ramen.current_ramen is Some),
                    )
                },
            }
            &&& after == (RamenGame {
                base: BaseGame {
                    distribution: after.base.distribution,
                    deck: after.base.deck,
                    ..before.base
                },
                persons: after.persons,
                ramen: after.ramen,
                ..before
            })
        },
    }
}

/// The bowl that was picked can be looked up, and the trainings are set up where it brings clones.
pub open spec fn ground_ready(game: &RamenGame, data: &RamenScenarioData) -> bool {
    &&& data.recipes_valid()
    &&& game.persons@.len() <= i32::MAX
    &&& addable(ints(game.ramen.pending_special_targets))
    &&& game.ramen.pending_ramen matches Some(r) ==> {
        &&& r < data.ramen_region_effect@.len()
        &&& r >= 5 && game.deck_can_split ==> game.base.distribution@.len() >= 5
    }
}

impl RamenGame {
    /// Eats the bowl that was picked, if any: pays for it, places the clones it brings, and lets
    /// bonds rise. Scenario points come only at the end of the turn, so that the bowl does not
    /// raise the tiers of its own turn.
    pub fn ground_ramen_effects(&mut self, data: &RamenScenarioData, rng: &mut StdRng) -> (r: Result<
        (),
        SimError,
    >)
        requires
            ground_ready(old(self), data),
        ensures
            r == ground_result(old(self), data),
            exists|picks: Seq<Option<i32>>| #[trigger]
                grounded(*old(self), *final(self), data, picks),
    {
        let ghost start = *self;
        let ghost mut got: Seq<Option<i32>> = Seq::empty();
        if let Some(ramen_idx) = self.ramen.pending_ramen {
            let targets: [i32; 3] = self.ramen.pending_special_targets;
            match consume_for_ramen(data, &mut self.ramen, ramen_idx, &targets) {
                Ok(_) => {},
                Err(e) => {
                    assert(grounded(start, *self, data, got));
                    return Err(e);
                },
            }
            self.ramen.current_ramen = Some(ramen_idx);
            assert(paid(start.ramen, self.ramen, data, ramen_idx));
            let ghost mid = *self;
            self.distribute_region_clones(data, ramen_idx, rng);
            proof {
                got = choose|picks: Seq<Option<i32>>| #[trigger]
                    region_cloned(&mid, self.seats(), data, ramen_idx, picks);
                assert(region_cloned(&mid, self.seats(), data, ramen_idx, got));
                assert(mid.seats() == start.seats());
                assert(region_cloned(&start, self.seats(), data, ramen_idx, got));
            }
        }
        let ghost fed = *self;
        self.apply_ramen_friendship(data);
        proof {
            assert(eaten_bonds(&fed, data, fed.ramen.current_ramen is Some) == eaten_bonds(
                &start,
                data,
                fed.ramen.current_ramen is Some,
            ));
            assert(self.seats() == fed.seats());
            assert(grounded(start, *self, data, got));
        }
        Ok(())
    }

    /// The answers to the questions for a bowl and its hidden flavours at once.
    pub fn list_combined_ramen_select_actions(&self, data: &RamenScenarioData) -> (out: Vec<RamenAction>)
        requires
            data.recipes_valid(),
        ensures
            action_views(out@) == combined_answers(
                data,
                &self.ramen,
                self.ramen.selected_regions@,
            ),
    {
        list_combined_ramen_select_actions(data, &self.ramen, &self.ramen.selected_regions)
    }

    /// Why a decision about bowl and hidden flavours at once is refused.
    pub open spec fn combined_fault(
        &self,
        data: &RamenScenarioData,
        ramen: Option<usize>,
        targets: Seq<int>,
    ) -> Option<SimError> {
        if self.stage != RamenStage::RamenSelect {
            Some(SimError::WrongStage)
        } else {
            match ramen {
                None => None,
                Some(r) => {
                    let recipe = ints(data.recipe(r as int));
                    if recipe_fault(data, r) is Some {
                        recipe_fault(data, r)
                    } else if !legal_targets(
                        ints(self.ramen.feeling_stock),
                        self.ramen.special_feeling as int,
                        recipe,
                        targets,
                    ) {
                        Some(SimError::IllegalTargets { ramen_idx: r })
                    } else {
                        None
                    }
                },
            }
        }
    }

    /// Decides about bowl and hidden flavours at once. Without a bowl no hidden flavours are used,
    /// whatever was asked for. The stage moves on only with the next step.
    ///
    /// Refused at other stages, for a region without a proper recipe, and for hidden flavours that
    /// are not legal for the bowl; then nothing changes.
    pub fn apply_combined_ramen_decision(
        &mut self,
        data: &RamenScenarioData,
        ramen: Option<usize>,
        targets: [i32; 3],
    ) -> (r: Result<(), SimError>)
        requires
            data.recipes_valid(),
        ensures
            match old(self).combined_fault(data, ramen, ints(targets)) {
                Some(e) => r == Err::<(), SimError>(e) && *final(self) == *old(self),
                None => {
                    &&& r == Ok::<(), SimError>(())
                    &&& ints(final(self).ramen.pending_special_targets) == if ramen is Some {
                        ints(targets)
                    } else {
                        seq![0int, 0, 0]
                    }
                    &&& *final(self) == (RamenGame {
                        ramen: RamenState {
                            pending_ramen: ramen,
                            pending_special_targets: final(self).ramen.pending_special_targets,
                            combined_decision: true,
                            ..old(self).ramen
                        },
                        ..*old(self)
                    })
                },
            },
            r is Ok ==> decided_at_once(*old(self), *final(self), ramen, ints(targets)),
    {
        if self.stage != RamenStage::RamenSelect {
            return Err(SimError::WrongStage);
        }
        let used: [i32; 3] = match ramen {
            None => [0, 0, 0],
            Some(idx) => {
                let legal: Vec<[i32; 3]> = match list_special_targets_for(data, &self.ramen, idx) {
                    Ok(l) => l,
                    Err(e) => {
                        return Err(e);
                    },
                };
                let found: bool = holds_triple(&legal, &targets);
                proof {
                    law_legal_list_is_complete(
                        ints(self.ramen.feeling_stock),
                        self.ramen.special_feeling as int,
                        ints(data.recipe(idx as int)),
                        ints(targets),
                    );
                }
                if !found {
                    return Err(SimError::IllegalTargets { ramen_idx: idx });
                }
                targets
            },
        };
        assert(ramen is None ==> ints(used) =~= seq![0int, 0, 0]);
        self.ramen.pending_ramen = ramen;
        self.ramen.pending_special_targets = used;
        self.ramen.combined_decision = true;
        Ok(())
    }
}

/// Bowl and hidden flavours have been decided at once.
pub open spec fn decided_at_once(
    before: RamenGame,
    after: RamenGame,
    ramen: Option<usize>,
    t: Seq<int>,
) -> bool {
    &&& ints(after.ramen.pending_special_targets) == if ramen is Some {
        t
    } else {
        seq![0int, 0, 0]
    }
    &&& after == (RamenGame {
        ramen: RamenState {
            pending_ramen: ramen,
            pending_special_targets: after.ramen.pending_special_targets,
            combined_decision: true,
            ..before.ramen
        },
        ..before
    })
}

/// Whether a list of triples holds one.
fn holds_triple(list: &Vec<[i32; 3]>, t: &[i32; 3]) -> (b: bool)
    ensures
        b == rows(list@).contains(ints(*t)),
{
    let mut i: usize = 0;
    while i < list.len()
        invariant
            i <= list@.len(),
            forall|j: int| 0 <= j < i ==> #[trigger] rows(list@)[j] != ints(*t),
        decreases list@.len() - i,
    {
        let r: &[i32; 3] = &list[i];
        assert(rows(list@)[i as int] == ints(*r));
        if r[0] == t[0] && r[1] == t[1] && r[2] == t[2] {
            assert(ints(*r) =~= ints(*t));
            return true;
        }
        assert(ints(*r)[0] == r@[0] && ints(*r)[1] == r@[1] && ints(*r)[2] == r@[2]);
        assert(ints(*t)[0] == t@[0] && ints(*t)[1] == t@[1] && ints(*t)[2] == t@[2]);
        i = i + 1;
    }
    false
}

// ========== The end of a turn ==========

/// A bowl was eaten this turn, and the tables know its points.
pub open spec fn bowl_counts(game: &RamenGame, data: &RamenScenarioData) -> bool {
    let y = year_of(game.base.turn as int) - 1;
    &&& game.ramen.current_ramen is Some
    &&& y < data.gain_pt_base@.len()
    &&& y < data.gain_pt_delta@.len()
}

/// Scenario points at the end of the turn, with those of the bowl that was eaten.
pub open spec fn closing_pt(game: &RamenGame, data: &RamenScenarioData) -> int {
    if bowl_counts(game, data) {
        game.ramen.scenario_pt + pt_gain(
            data,
            year_of(game.base.turn as int) - 1,
            game.ramen.eat_count as int,
        )
    } else {
        game.ramen.scenario_pt as int
    }
}

/// Bowls eaten this year at the end of the turn.
pub open spec fn closing_bowls(game: &RamenGame, data: &RamenScenarioData) -> int {
    if bowl_counts(game, data) {
        game.ramen.eat_count + 1
    } else {
        game.ramen.eat_count as int
    }
}

/// The outcome of the settlement at the end of the turn.
pub open spec fn closing_outcome(game: &RamenGame, data: &RamenScenarioData) -> RmjResult {
    rmj_outcome(data, closing_pt(game, data), year_of(game.base.turn as int) - 1)
}

/// The results of the settlements once the turn's has been recorded.
pub open spec fn closing_results(game: &RamenGame, data: &RamenScenarioData) -> Seq<bool> {
    game.ramen.rmj_results@.push(closing_outcome(game, data) != RmjResult::Fail)
}

/// The character and the event counts after the event that closes the year.
pub open spec fn closing_event(before: &RamenGame, data: &RamenScenarioData, after: &RamenGame) -> bool {
    match rmj_event(data, year_of(before.base.turn as int) - 1) {
        Some(e) => {
            &&& uma_rmj(
                before.base.uma,
                rmj_outcome_of(e, closing_results(before, data)),
                after.base.uma,
            )
            &&& after.base.events@ == before.base.events@.insert(
                e.id,
                (times(before.base.events@, e.id) + 1) as i32,
            )
        },
        None => after.base.uma == before.base.uma && after.base.events == before.base.events,
    }
}

/// What the end of a turn does to the scenario's state: the bowl's points are credited, the bowl and
/// a decision in progress are cleared. On a settlement turn the year's points and bowls are recorded
/// before they are reset, the outcome is recorded, and a success raises the training levels.
pub open spec fn turn_closed(before: &RamenGame, data: &RamenScenarioData, after: &RamenGame) -> bool {
    let b = before.ramen;
    let a = after.ramen;
    &&& a.pending_special_targets@ == seq![0i32, 0, 0]
    &&& match settled_year(before.base.turn as int) {
        Some(y) => {
            &&& a.yearly_scenario_pt@ == b.yearly_scenario_pt@.update(
                y,
                closing_pt(before, data) as i32,
            )
            &&& a.yearly_eat_count@ == b.yearly_eat_count@.update(
                y,
                closing_bowls(before, data) as i32,
            )
            &&& a.rmj_results@ == closing_results(before, data)
            &&& a.train_level_bonus == b.train_level_bonus + if closing_outcome(before, data)
                != RmjResult::Fail {
                1int
            } else {
                0
            }
            &&& a.scenario_pt == 0
            &&& a.eat_count == 0
            &&& closing_event(before, data, after)
        },
        None => {
            &&& a.yearly_scenario_pt == b.yearly_scenario_pt
            &&& a.yearly_eat_count == b.yearly_eat_count
            &&& a.rmj_results == b.rmj_results
            &&& a.train_level_bonus == b.train_level_bonus
            &&& a.scenario_pt == closing_pt(before, data)
            &&& a.eat_count == closing_bowls(before, data)
            &&& after.base.uma == before.base.uma
            &&& after.base.events == before.base.events
        },
    }
    &&& a == (RamenState {
        current_ramen: None,
        pending_ramen: None,
        pending_special_targets: a.pending_special_targets,
        combined_decision: false,
        yearly_scenario_pt: a.yearly_scenario_pt,
        yearly_eat_count: a.yearly_eat_count,
        rmj_results: a.rmj_results,
        train_level_bonus: a.train_level_bonus,
        scenario_pt: a.scenario_pt,
        eat_count: a.eat_count,
        ..b
    })
}

/// The numbers of a turn's end stay within the range of machine integers.
pub open spec fn close_fits(game: &RamenGame, data: &RamenScenarioData) -> bool {
    let y = year_of(game.base.turn as int) - 1;
    &&& bowl_counts(game, data) ==> {
        &&& i32::MIN <= pt_gain(data, y, game.ramen.eat_count as int) <= i32::MAX
        &&& i32::MIN <= pt_gain(data, y, game.ramen.eat_count as int) - data.gain_pt_base@[y]
            <= i32::MAX
        &&& i32::MIN <= closing_pt(game, data) <= i32::MAX
        &&& game.ramen.eat_count < i32::MAX
    }
    &&& settled_year(game.base.turn as int) is Some ==> {
        &&& game.ramen.train_level_bonus < i32::MAX
        &&& rmj_event(data, y) matches Some(e) ==> {
            &&& times(game.base.events@, e.id) < i32::MAX
            &&& rmj_outcome_of(e, closing_results(game, data)) matches Some(c)
                ==> game.base.uma.value_fits(&c.value)
        }
    }
}

/// Every span of freely chosen races that ended on the turn before has its races.
pub open spec fn races_met(uma: &Uma, data: &UmaData, turn: int) -> bool {
    forall|i: int|
        0 <= i < data.free_races@.len() && (#[trigger] data.free_races@[i]).end_turn + 1 == turn
            ==> races_between(uma.win_races, data.free_races@[i].mask, 64)
            >= data.free_races@[i].count
}

/// The career has moved on to the next turn, or has ended: after the last turn, or because a span of
/// freely chosen races that just ended lacks races.
pub open spec fn advanced(before: RamenGame, after: RamenGame, data: &UmaData, more: bool) -> bool {
    if before.base.turn < MAX_TURN {
        &&& after == (RamenGame {
            base: BaseGame { turn: (before.base.turn + 1) as i32, ..before.base },
            stage: RamenStage::Begin,
            ..before
        })
        &&& more == races_met(&before.base.uma, data, before.base.turn + 1)
    } else {
        after == before && !more
    }
}

/// The stage after the end of a turn.
pub open spec fn turn_ended(
    before: RamenGame,
    after: RamenGame,
    data: &RamenScenarioData,
    uma_data: &UmaData,
    more: bool,
) -> bool {
    let turn = before.base.turn;
    &&& turn_closed(&before, data, &after)
    &&& if turn == 23 || turn == 47 {
        more && after.stage == RamenStage::RegionSelect && after.base.turn == turn
    } else if turn == 71 {
        more && after.stage == RamenStage::SuperRamenSelect && after.base.turn == turn
    } else if turn < MAX_TURN {
        &&& after.stage == RamenStage::Begin
        &&& after.base.turn == turn + 1
        &&& more == races_met(&after.base.uma, uma_data, turn + 1)
    } else {
        !more && after.stage == before.stage && after.base.turn == turn
    }
    &&& after == (RamenGame {
        base: BaseGame {
            turn: after.base.turn,
            uma: after.base.uma,
            events: after.base.events,
            ..before.base
        },
        ramen: after.ramen,
        stage: after.stage,
        ..before
    })
}

impl RamenGame {
    /// Whether every span of freely chosen races that ended on the turn before has its races.
    pub fn check_free_race(&self, data: &UmaData) -> (ok: bool)
        ensures
            ok == races_met(&self.base.uma, data, self.base.turn as int),
    {
        let mut i: usize = 0;
        while i < data.free_races.len()
            invariant
                i <= data.free_races@.len(),
                forall|j: int|
                    0 <= j < i && (#[trigger] data.free_races@[j]).end_turn + 1 == self.base.turn
                        ==> races_between(self.base.uma.win_races, data.free_races@[j].mask, 64)
                        >= data.free_races@[j].count,
            decreases data.free_races@.len() - i,
        {
            let end: i64 = data.free_races[i].end_turn as i64;
            if end + 1 == self.base.turn as i64 && self.base.uma.count_free_race(
                &data.free_races[i],
            ) < data.free_races[i].count {
                return false;
            }
            i = i + 1;
        }
        true
    }

    /// Moves on to the next turn. Returns whether the career goes on.
    pub fn advance_turn(&mut self, data: &UmaData) -> (more: bool)
        ensures
            advanced(*old(self), *final(self), data, more),
    {
        if self.base.turn < self.max_turn() {
            self.base.turn = self.base.turn + 1;
            self.stage = RamenStage::Begin;
            self.check_free_race(data)
        } else {
            false
        }
    }

    /// Credits the points of the bowl that was eaten, and clears it and a decision in progress.
    fn settle_bowl(&mut self, data: &RamenScenarioData)
        requires
            close_fits(old(self), data),
        ensures
            final(self).ramen.pending_special_targets@ == seq![0i32, 0, 0],
            *final(self) == (RamenGame {
                ramen: RamenState {
                    scenario_pt: closing_pt(old(self), data) as i32,
                    eat_count: closing_bowls(old(self), data) as i32,
                    current_ramen: None,
                    pending_ramen: None,
                    pending_special_targets: final(self).ramen.pending_special_targets,
                    combined_decision: false,
                    ..old(self).ramen
                },
                ..*old(self)
            }),
    {
        if self.ramen.current_ramen.is_some() {
            let year_idx: usize = self.year_idx();
            match calc_ramen_pt_gain(data, year_idx, self.ramen.eat_count) {
                Ok(gain) => {
                    self.ramen.scenario_pt = self.ramen.scenario_pt + gain;
                    self.ramen.eat_count = self.ramen.eat_count + 1;
                },
                Err(_) => {},
            }
        }
        self.ramen.current_ramen = None;
        self.ramen.clear_pending();
    }

    /// Settles the year: records its points and bowls and the outcome, raises the training levels
    /// on a success, plays the event that closes the year, and starts the counters anew.
    fn settle_year(&mut self, data: &RamenScenarioData, year_idx: usize)
        requires
            year_idx < 3,
            old(self).ramen.train_level_bonus < i32::MAX,
            ({
                let outcome = rmj_outcome(
                    data,
                    old(self).ramen.scenario_pt as int,
                    year_idx as int,
                );
                let results = old(self).ramen.rmj_results@.push(outcome != RmjResult::Fail);
                rmj_event(data, year_idx as int) matches Some(e) ==> {
                    &&& times(old(self).base.events@, e.id) < i32::MAX
                    &&& rmj_outcome_of(e, results) matches Some(c)
                        ==> old(self).base.uma.value_fits(&c.value)
                }
            }),
        ensures
            ({
                let outcome = rmj_outcome(
                    data,
                    old(self).ramen.scenario_pt as int,
                    year_idx as int,
                );
                let a = final(self).ramen;
                let b = old(self).ramen;
                &&& a.rmj_results@ == b.rmj_results@.push(outcome != RmjResult::Fail)
                &&& a.train_level_bonus == b.train_level_bonus + if outcome != RmjResult::Fail {
                    1int
                } else {
                    0
                }
                &&& a.yearly_scenario_pt@ == b.yearly_scenario_pt@.update(
                    year_idx as int,
                    b.scenario_pt,
                )
                &&& a.yearly_eat_count@ == b.yearly_eat_count@.update(
                    year_idx as int,
                    b.eat_count,
                )
                &&& a == (RamenState {
                    rmj_results: a.rmj_results,
                    train_level_bonus: a.train_level_bonus,
                    yearly_scenario_pt: a.yearly_scenario_pt,
                    yearly_eat_count: a.yearly_eat_count,
                    scenario_pt: 0,
                    eat_count: 0,
                    ..b
                })
            }),
            match rmj_event(data, year_idx as int) {
                Some(e) => {
                    &&& uma_rmj(
                        old(self).base.uma,
                        rmj_outcome_of(e, final(self).ramen.rmj_results@),
                        final(self).base.uma,
                    )
                    &&& final(self).base.events@ == old(self).base.events@.insert(
                        e.id,
                        (times(old(self).base.events@, e.id) + 1) as i32,
                    )
                },
                None => final(self).base.uma == old(self).base.uma && final(self).base.events == old(
                    self).base.events,
            },
            *final(self) == (RamenGame {
                base: BaseGame {
                    uma: final(self).base.uma,
                    events: final(self).base.events,
                    ..old(self).base
                },
                ramen: final(self).ramen,
                ..*old(self)
            }),
    {
        let _ = self.ramen.archive_year_counters(year_idx);
        let result: RmjResult = check_rmj(data, &mut self.ramen, year_idx);
        if result.is_success() {
            self.ramen.train_level_bonus = self.ramen.train_level_bonus + 1;
        }
        self.ramen.eat_count = 0;
        match find_rmj_event(data, year_idx) {
            Some(event) => {
                proof {
                    lemma_rmj_event_id(data, year_idx as int);
                }
                self.apply_rmj_event(&event, year_idx);
            },
            None => {},
        }
        self.ramen.scenario_pt = 0;
    }

    /// Ends a turn.
    fn end_turn(&mut self, data: &RamenScenarioData, uma_data: &UmaData) -> (more: bool)
        requires
            close_fits(old(self), data),
            old(self).stage == RamenStage::NextTurn,
        ensures
            turn_ended(*old(self), *final(self), data, uma_data, more),
    {
        self.settle_bowl(data);
        if self.is_rmj_turn() {
            let year_idx: usize = self.year_idx();
            self.settle_year(data, year_idx);
        }
        if self.base.turn == 23 || self.base.turn == 47 {
            self.stage = RamenStage::RegionSelect;
            return true;
        }
        if self.base.turn == 71 {
            self.stage = RamenStage::SuperRamenSelect;
            return true;
        }
        self.advance_turn(uma_data)
    }
}

proof fn lemma_event_by_id(list: Seq<crate::gamedata::event::EventView>, id: u32)
    ensures
        super::story::event_by_id(list, id) matches Some(e) ==> e.id == id,
    decreases list.len(),
{
    if list.len() > 0 && list[0].id != id {
        lemma_event_by_id(list.drop_first(), id);
    }
}

proof fn lemma_rmj_event_id(data: &RamenScenarioData, year_idx: int)
    ensures
        rmj_event(data, year_idx) matches Some(e) ==> rmj_event_id(year_idx) == Some(e.id),
{
    if let Some(id) = rmj_event_id(year_idx) {
        lemma_event_by_id(crate::gamedata::event::event_views(data.scenario_events@), id);
    }
}

// ========== The stages of a turn ==========

/// The same career at another stage.
pub open spec fn at_stage(game: RamenGame, stage: RamenStage) -> RamenGame {
    RamenGame { stage, ..game }
}

/// The same career with the mark of a combined decision set or not.
pub open spec fn marked(game: RamenGame, combined: bool) -> RamenGame {
    RamenGame { ramen: RamenState { combined_decision: combined, ..game.ramen }, ..game }
}

/// One step of the career. `more` tells whether it goes on.
///
/// A bowl and hidden flavours that were decided at once are eaten on the way to the training;
/// otherwise the hidden flavours come next, and the bowl is eaten after them. Without a bowl the
/// training comes at once. Turns without bowls go from the trainings' distribution straight to the
/// training. On turn two the regions are picked in the middle of the turn's beginning.
pub open spec fn next_step(
    before: RamenGame,
    after: RamenGame,
    data: &RamenScenarioData,
    uma_data: &UmaData,
    more: bool,
) -> bool {
    let turn = before.base.turn;
    match before.stage {
        RamenStage::RamenSelect => more && if before.ramen.combined_decision {
            &&& !after.ramen.combined_decision
            &&& exists|picks: Seq<Option<i32>>| #[trigger]
                grounded(at_stage(before, RamenStage::Train), marked(after, true), data, picks)
        } else {
            after == at_stage(
                before,
                if before.ramen.pending_ramen is Some {
                    RamenStage::SpecialSelect
                } else {
                    RamenStage::Train
                },
            )
        },
        RamenStage::SpecialSelect => {
            &&& more
            &&& after.stage == RamenStage::Train
            &&& exists|picks: Seq<Option<i32>>| #[trigger]
                grounded(before, at_stage(after, RamenStage::SpecialSelect), data, picks)
        },
        RamenStage::Begin => more && after == at_stage(
            before,
            if turn == 2 {
                RamenStage::RegionSelect
            } else {
                RamenStage::Distribute
            },
        ),
        RamenStage::BeginAfterRegionSelect => more && after == at_stage(
            before,
            RamenStage::Distribute,
        ),
        RamenStage::Distribute => more && after == at_stage(
            before,
            if bowl_turn(turn as int) {
                RamenStage::RamenSelect
            } else {
                RamenStage::Train
            },
        ),
        RamenStage::Train => more && after == at_stage(before, RamenStage::AfterTrain),
        RamenStage::AfterTrain => more && after == at_stage(before, RamenStage::NextTurn),
        RamenStage::NextTurn => turn_ended(before, after, data, uma_data, more),
        RamenStage::RegionSelect => if turn == 2 {
            more && after == at_stage(before, RamenStage::BeginAfterRegionSelect)
        } else {
            advanced(before, after, uma_data, more)
        },
        RamenStage::SuperRamenSelect | RamenStage::Settlement => advanced(
            before,
            after,
            uma_data,
            more,
        ),
    }
}

/// What a step needs: a bowl that is about to be eaten can be looked up, and the numbers of a turn's
/// end stay within range.
pub open spec fn step_ready(game: &RamenGame, data: &RamenScenarioData) -> bool {
    &&& game.stage == RamenStage::SpecialSelect || (game.stage == RamenStage::RamenSelect
        && game.ramen.combined_decision) ==> ground_ready(game, data)
    &&& game.stage == RamenStage::NextTurn ==> close_fits(game, data)
}

impl RamenGame {
    /// Goes one step on. Returns whether the career goes on.
    pub fn next(&mut self, data: &RamenScenarioData, uma_data: &UmaData, rng: &mut StdRng) -> (more: bool)
        requires
            step_ready(old(self), data),
        ensures
            next_step(*old(self), *final(self), data, uma_data, more),
    {
        if self.stage == RamenStage::RamenSelect {
            if self.ramen.combined_decision {
                self.stage = RamenStage::Train;
                let ghost start = *self;
                assert(start == at_stage(*old(self), RamenStage::Train));
                let _ = self.ground_ramen_effects(data, rng);
                let ghost fed = *self;
                proof {
                    let picks = choose|picks: Seq<Option<i32>>| #[trigger]
                        grounded(start, fed, data, picks);
                    assert(grounded(start, fed, data, picks));
                    assert(fed.ramen.combined_decision);
                }
                self.ramen.combined_decision = false;
                assert(marked(*self, true) == fed);
                return true;
            }
            self.stage = if self.ramen.pending_ramen.is_some() {
                RamenStage::SpecialSelect
            } else {
                RamenStage::Train
            };
            return true;
        }
        if self.stage == RamenStage::SpecialSelect {
            let _ = self.ground_ramen_effects(data, rng);
            let ghost fed = *self;
            assert(fed.stage == RamenStage::SpecialSelect);
            self.stage = RamenStage::Train;
            assert(at_stage(*self, RamenStage::SpecialSelect) == fed);
            return true;
        }
        if self.stage == RamenStage::Begin && self.base.turn == 2 {
            self.stage = RamenStage::RegionSelect;
            return true;
        }
        if let Some(following) = self.stage.next() {
            let skips: bool = self.stage == RamenStage::Distribute && (self.base.turn < 2
                || self.is_super_ramen_turn());
            self.stage = if skips {
                RamenStage::Train
            } else {
                following
            };
            return true;
        }
        if self.stage == RamenStage::AfterTrain {
            self.stage = RamenStage::NextTurn;
            return true;
        }
        if self.stage == RamenStage::NextTurn {
            return self.end_turn(data, uma_data);
        }
        if self.stage == RamenStage::RegionSelect && self.base.turn == 2 {
            self.stage = RamenStage::BeginAfterRegionSelect;
            return true;
        }
        self.advance_turn(uma_data)
    }
}

/// Deciding about bowl and hidden flavours at once leads to the same careers as deciding about one
/// after the other.
pub proof fn law_combined_equals_two_steps(
    game: RamenGame,
    after: RamenGame,
    data: &RamenScenarioData,
    uma_data: &UmaData,
)
    requires
        game.ramen.pending_ramen is Some,
    ensures
        next_step(
            marked(at_stage(game, RamenStage::RamenSelect), true),
            after,
            data,
            uma_data,
            true,
        ) <==> next_step(
            marked(at_stage(game, RamenStage::SpecialSelect), false),
            after,
            data,
            uma_data,
            true,
        ),
{
    let a = marked(at_stage(game, RamenStage::RamenSelect), true);
    let b = marked(at_stage(game, RamenStage::SpecialSelect), false);
    let a1 = at_stage(a, RamenStage::Train);
    let fa = marked(after, true);
    let fb = at_stage(after, RamenStage::SpecialSelect);
    assert forall|picks: Seq<Option<i32>>|
        !after.ramen.combined_decision && after.stage == RamenStage::Train implies #[trigger] grounded(
        a1,
        fa,
        data,
        picks,
    ) == grounded(b, fb, data, picks) by {
        if grounded(a1, fa, data, picks) {
            lemma_grounding_blind(a1, fa, b, fb, data, picks);
        }
        if grounded(b, fb, data, picks) {
            lemma_grounding_blind(b, fb, a1, fa, data, picks);
        }
    }
    if next_step(a, after, data, uma_data, true) {
        let picks = choose|picks: Seq<Option<i32>>| #[trigger] grounded(a1, fa, data, picks);
        assert(fa.stage == RamenStage::Train);
        assert(grounded(b, fb, data, picks));
    }
    if next_step(b, after, data, uma_data, true) {
        let picks = choose|picks: Seq<Option<i32>>| #[trigger] grounded(b, fb, data, picks);
        assert(!fb.ramen.combined_decision);
        assert(grounded(a1, fa, data, picks));
    }
}

proof fn lemma_grounding_blind(
    a: RamenGame,
    fa: RamenGame,
    b: RamenGame,
    fb: RamenGame,
    data: &RamenScenarioData,
    picks: Seq<Option<i32>>,
)
    requires
        b == marked(at_stage(a, b.stage), b.ramen.combined_decision),
        fb == marked(at_stage(fa, b.stage), b.ramen.combined_decision),
        fa.stage == a.stage,
        fa.ramen.combined_decision == a.ramen.combined_decision,
        grounded(a, fa, data, picks),
    ensures
        grounded(b, fb, data, picks),
{
    assert(a.seats() == b.seats());
    assert(fa.seats() == fb.seats());
    assert(ground_result(&a, data) == ground_result(&b, data));
    assert(eaten_bonds(&a, data, true) == eaten_bonds(&b, data, true));
    assert(eaten_bonds(&a, data, false) == eaten_bonds(&b, data, false));
    if let Some(r) = a.ramen.pending_ramen {
        if ground_result(&a, data) is Ok {
            assert(paid(b.ramen, fb.ramen, data, r));
            assert(region_cloned(&b, fb.seats(), data, r, picks));
        }
    }
}

/// On turn two the beginning is split by the pick of regions: beginning, pick, rest of the beginning,
/// distribution, all within the turn.
pub proof fn law_turn_two_sequence(
    g0: RamenGame,
    g1: RamenGame,
    g2: RamenGame,
    g3: RamenGame,
    data: &RamenScenarioData,
    uma_data: &UmaData,
    m0: bool,
    m1: bool,
    m2: bool,
)
    requires
        g0.base.turn == 2,
        g0.stage == RamenStage::Begin,
        next_step(g0, g1, data, uma_data, m0),
        next_step(g1, g2, data, uma_data, m1),
        next_step(g2, g3, data, uma_data, m2),
    ensures
        m0 && m1 && m2,
        g1.stage == RamenStage::RegionSelect,
        g2.stage == RamenStage::BeginAfterRegionSelect,
        g3.stage == RamenStage::Distribute,
        g3.base.turn == 2,
{
}

/// On turns before the second and on super ramen turns the distribution leads straight to the
/// training.
pub proof fn law_no_bowls_before_two_and_after_seventy_one(
    before: RamenGame,
    after: RamenGame,
    data: &RamenScenarioData,
    uma_data: &UmaData,
    more: bool,
)
    requires
        before.stage == RamenStage::Distribute,
        next_step(before, after, data, uma_data, more),
    ensures
        more,
        after.base.turn == before.base.turn,
        after.stage == RamenStage::Train <==> (before.base.turn < 2 || 72 <= before.base.turn <= 77),
        after.stage == RamenStage::RamenSelect <==> !(before.base.turn < 2 || 72 <= before.base.turn
            <= 77),
{
}

/// A turn never goes back: a step keeps the turn or moves on to the next one, and it moves on only
/// to the beginning of a turn.
pub proof fn law_turns_only_advance(
    before: RamenGame,
    after: RamenGame,
    data: &RamenScenarioData,
    uma_data: &UmaData,
    more: bool,
)
    requires
        before.base.turn <= MAX_TURN,
        next_step(before, after, data, uma_data, more),
    ensures
        after.base.turn == before.base.turn || (after.base.turn == before.base.turn + 1 && after.stage
            == RamenStage::Begin),
        after.base.turn <= MAX_TURN,
{
    if before.stage == RamenStage::RamenSelect && before.ramen.combined_decision {
        let picks = choose|picks: Seq<Option<i32>>| #[trigger]
            grounded(at_stage(before, RamenStage::Train), marked(after, true), data, picks);
        assert(marked(after, true).base.turn == before.base.turn);
    }
    if before.stage == RamenStage::SpecialSelect {
        let picks = choose|picks: Seq<Option<i32>>| #[trigger]
            grounded(before, at_stage(after, RamenStage::SpecialSelect), data, picks);
        assert(at_stage(after, RamenStage::SpecialSelect).base.turn == before.base.turn);
    }
}

/// A bowl does not raise the tiers of its own turn: eating leaves scenario points and bowl count
/// alone, they change only at the turn's end.
pub proof fn law_points_wait_for_the_turns_end(
    before: RamenGame,
    after: RamenGame,
    data: &RamenScenarioData,
    uma_data: &UmaData,
    more: bool,
)
    requires
        before.stage != RamenStage::NextTurn,
        next_step(before, after, data, uma_data, more),
    ensures
        after.ramen.scenario_pt == before.ramen.scenario_pt,
        after.ramen.eat_count == before.ramen.eat_count,
        after.ramen.rmj_results@ == before.ramen.rmj_results@,
{
    if before.stage == RamenStage::RamenSelect && before.ramen.combined_decision {
        let picks = choose|picks: Seq<Option<i32>>| #[trigger]
            grounded(at_stage(before, RamenStage::Train), marked(after, true), data, picks);
        assert(marked(after, true).ramen.scenario_pt == before.ramen.scenario_pt);
    }
    if before.stage == RamenStage::SpecialSelect {
        let picks = choose|picks: Seq<Option<i32>>| #[trigger]
            grounded(before, at_stage(after, RamenStage::SpecialSelect), data, picks);
        assert(at_stage(after, RamenStage::SpecialSelect).ramen.scenario_pt
            == before.ramen.scenario_pt);
    }
}

/// A settlement records the year's points and bowls as they stand with the turn's bowl, and only
/// then starts the counters anew.
pub proof fn law_settlement_archives_before_reset(
    before: RamenGame,
    after: RamenGame,
    data: &RamenScenarioData,
    uma_data: &UmaData,
    more: bool,
    year_idx: int,
)
    requires
        before.stage == RamenStage::NextTurn,
        settled_year(before.base.turn as int) == Some(year_idx),
        close_fits(&before, data),
        next_step(before, after, data, uma_data, more),
    ensures
        after.ramen.yearly_scenario_pt@[year_idx] == closing_pt(&before, data),
        after.ramen.yearly_eat_count@[year_idx] == closing_bowls(&before, data),
        after.ramen.scenario_pt == 0,
        after.ramen.eat_count == 0,
        after.ramen.rmj_results@.last() == (closing_pt(&before, data) >= if year_idx
            < data.ramen_success_pt@.len() {
            data.ramen_success_pt@[year_idx]
        } else {
            i32::MAX
        }),
{
}

/// A career ends where a span of freely chosen races that has just ended lacks races, and goes on
/// before the last turn where every such span has at least the races that it demands.
pub proof fn law_missing_races_end_the_career(
    before: RamenGame,
    after: RamenGame,
    data: &UmaData,
    more: bool,
)
    requires
        advanced(before, after, data, more),
    ensures
        before.base.turn < 77 ==> after.base.turn == before.base.turn + 1 && after.stage
            == RamenStage::Begin,
        before.base.turn >= 77 ==> !more && after == before,
        before.base.turn < 77 ==> (more <==> forall|i: int|
            0 <= i < data.free_races@.len() && (#[trigger] data.free_races@[i]).end_turn + 1
                == after.base.turn ==> data.free_races@[i].count <= races_between(
                before.base.uma.win_races,
                data.free_races@[i].mask,
                64,
            )),
{
}

/// One span that ended on the turn before with fewer races than it demands is enough to end the
/// career.
pub proof fn law_one_short_span_is_enough(
    before: RamenGame,
    after: RamenGame,
    data: &UmaData,
    more: bool,
    i: int,
)
    requires
        advanced(before, after, data, more),
        0 <= i < data.free_races@.len(),
        data.free_races@[i].end_turn == before.base.turn,
        races_between(before.base.uma.win_races, data.free_races@[i].mask, 64)
            < data.free_races@[i].count,
    ensures
        !more,
{
    assert(data.free_races@[i].end_turn + 1 == before.base.turn + 1);
}

/// Who has the races of every span never ends early.
pub proof fn law_races_done_never_end_early(
    before: RamenGame,
    after: RamenGame,
    data: &UmaData,
    more: bool,
)
    requires
        advanced(before, after, data, more),
        before.base.turn < 77,
        forall|i: int|
            0 <= i < data.free_races@.len() ==> (#[trigger] data.free_races@[i]).count
                <= races_between(before.base.uma.win_races, data.free_races@[i].mask, 64),
    ensures
        more,
{
}

/// A step ends the career only on the way from one turn to the next: after the last turn, or where a
/// span of freely chosen races that ends with the turn lacks races. Picks of regions and of the super
/// ramen at the end of a turn come before that.
pub proof fn law_career_ends_only_between_turns(
    before: RamenGame,
    after: RamenGame,
    data: &RamenScenarioData,
    uma_data: &UmaData,
    more: bool,
)
    requires
        before.base.turn <= 77,
        next_step(before, after, data, uma_data, more),
        !more,
    ensures
        match before.stage {
            RamenStage::NextTurn => before.base.turn != 23 && before.base.turn != 47
                && before.base.turn != 71,
            RamenStage::RegionSelect => before.base.turn != 2,
            RamenStage::SuperRamenSelect => true,
            RamenStage::Settlement => true,
            _ => false,
        },
        before.base.turn == 77 || exists|i: int|
            0 <= i < uma_data.free_races@.len() && (#[trigger] uma_data.free_races@[i]).end_turn
                == before.base.turn && races_between(
                before.base.uma.win_races,
                uma_data.free_races@[i].mask,
                64,
            ) < uma_data.free_races@[i].count,
{
    if before.base.turn < 77 {
        assert(!races_met(&before.base.uma, uma_data, before.base.turn + 1));
        let i = choose|i: int|
            0 <= i < uma_data.free_races@.len() && (#[trigger] uma_data.free_races@[i]).end_turn + 1
                == before.base.turn + 1 && !(races_between(
                before.base.uma.win_races,
                uma_data.free_races@[i].mask,
                64,
            ) >= uma_data.free_races@[i].count);
        assert(uma_data.free_races@[i].end_turn == before.base.turn);
    }
}

/// The turns with picks at their end: twenty-three and forty-seven lead to the regions, seventy-one
/// to the super ramen, every other turn before the last to the beginning of the next.
pub proof fn law_end_of_turn_leads_on(
    before: RamenGame,
    after: RamenGame,
    data: &RamenScenarioData,
    uma_data: &UmaData,
    more: bool,
)
    requires
        before.stage == RamenStage::NextTurn,
        next_step(before, after, data, uma_data, more),
    ensures
        before.base.turn == 23 || before.base.turn == 47 ==> more && after.stage
            == RamenStage::RegionSelect && after.base.turn == before.base.turn,
        before.base.turn == 71 ==> more && after.stage == RamenStage::SuperRamenSelect
            && after.base.turn == 71,
        before.base.turn < 77 && before.base.turn != 23 && before.base.turn != 47
            && before.base.turn != 71 ==> after.stage == RamenStage::Begin && after.base.turn
            == before.base.turn + 1,
        before.base.turn >= 77 ==> !more,
        after.ramen.current_ramen is None,
        after.ramen.pending_ramen is None,
        !after.ramen.combined_decision,
{
}

/// The stages of a turn follow one another: training, what it leaves to be done, end of the turn.
/// None of these steps changes the turn or ends the career.
pub proof fn law_training_leads_to_the_end_of_the_turn(
    g0: RamenGame,
    g1: RamenGame,
    g2: RamenGame,
    data: &RamenScenarioData,
    uma_data: &UmaData,
    m0: bool,
    m1: bool,
)
    requires
        g0.stage == RamenStage::Train,
        next_step(g0, g1, data, uma_data, m0),
        next_step(g1, g2, data, uma_data, m1),
    ensures
        m0 && m1,
        g1.stage == RamenStage::AfterTrain,
        g2.stage == RamenStage::NextTurn,
        g2.base == g0.base,
        g2.ramen == g0.ramen,
        g2.persons == g0.persons,
{
}

/// A bowl that was picked is asked for its hidden flavours; without a bowl the training comes next.
pub proof fn law_picked_bowl_asks_for_flavours(
    before: RamenGame,
    after: RamenGame,
    data: &RamenScenarioData,
    uma_data: &UmaData,
    more: bool,
)
    requires
        before.stage == RamenStage::RamenSelect,
        !before.ramen.combined_decision,
        next_step(before, after, data, uma_data, more),
    ensures
        more,
        after.base == before.base,
        after.ramen == before.ramen,
        after.stage == RamenStage::SpecialSelect <==> before.ramen.pending_ramen is Some,
        after.stage == RamenStage::Train <==> before.ramen.pending_ramen is None,
{
}

/// The bowl of a turn earns its points at the turn's end: the base of the year, and the rise of the
/// year for each bowl eaten before, five at most. Without a bowl nothing is earned.
pub proof fn law_bowls_earn_points(
    before: RamenGame,
    after: RamenGame,
    data: &RamenScenarioData,
    uma_data: &UmaData,
    more: bool,
    y: int,
)
    requires
        before.stage == RamenStage::NextTurn,
        next_step(before, after, data, uma_data, more),
        before.base.turn != 23 && before.base.turn != 47 && before.base.turn != 71,
        y == if before.base.turn <= 23 {
            0int
        } else if before.base.turn <= 47 {
            1
        } else {
            2
        },
        data.gain_pt_base@.len() >= 3,
        data.gain_pt_delta@.len() >= 3,
    ensures
        before.ramen.current_ramen is None ==> after.ramen.scenario_pt == before.ramen.scenario_pt
            && after.ramen.eat_count == before.ramen.eat_count,
        before.ramen.current_ramen is Some ==> after.ramen.eat_count == before.ramen.eat_count + 1,
        before.ramen.current_ramen is Some && 0 <= before.ramen.eat_count <= 5
            ==> after.ramen.scenario_pt - before.ramen.scenario_pt == data.gain_pt_base@[y]
            + before.ramen.eat_count * data.gain_pt_delta@[y],
        before.ramen.current_ramen is Some && before.ramen.eat_count >= 5
            ==> after.ramen.scenario_pt - before.ramen.scenario_pt == data.gain_pt_base@[y] + 5
            * data.gain_pt_delta@[y],
        after.ramen.rmj_results@ == before.ramen.rmj_results@,
        after.ramen.train_level_bonus == before.ramen.train_level_bonus,
        after.base.uma == before.base.uma,
{
    let d = data.gain_pt_delta@[y] as int;
    let n = before.ramen.eat_count as int;
    assert(d * n == n * d) by (nonlinear_arith);
}

/// A settlement succeeds with the points that the year demands or more; only then the trainings gain
/// a level. Its outcome is recorded after those of the years before.
pub proof fn law_settlement_needs_its_points(
    before: RamenGame,
    after: RamenGame,
    data: &RamenScenarioData,
    uma_data: &UmaData,
    more: bool,
    y: int,
)
    requires
        before.stage == RamenStage::NextTurn,
        next_step(before, after, data, uma_data, more),
        (before.base.turn == 23 && y == 0) || (before.base.turn == 47 && y == 1) || (
        before.base.turn == 71 && y == 2),
        before.ramen.current_ramen is None,
        data.ramen_success_pt@.len() >= 3,
    ensures
        after.ramen.rmj_results@.len() == before.ramen.rmj_results@.len() + 1,
        after.ramen.rmj_results@.last() <==> before.ramen.scenario_pt
            >= data.ramen_success_pt@[y],
        forall|k: int|
            0 <= k < before.ramen.rmj_results@.len() ==> #[trigger] after.ramen.rmj_results@[k]
                == before.ramen.rmj_results@[k],
        after.ramen.train_level_bonus == before.ramen.train_level_bonus + (if before.ramen.scenario_pt
            >= data.ramen_success_pt@[y] {
            1int
        } else {
            0
        }),
        after.ramen.yearly_scenario_pt@[y] == before.ramen.scenario_pt,
        after.ramen.yearly_eat_count@[y] == before.ramen.eat_count,
        after.ramen.scenario_pt == 0,
        after.ramen.eat_count == 0,
        forall|k: int|
            0 <= k < 3 && k != y ==> #[trigger] after.ramen.yearly_scenario_pt@[k]
                == before.ramen.yearly_scenario_pt@[k],
{
}

/// Eating takes from the stocks what the recipe asks for and the hidden flavours do not make up for,
/// and takes the hidden flavours. The gauges and the points do not change.
pub proof fn law_eating_takes_what_the_recipe_asks(
    before: RamenGame,
    after: RamenGame,
    data: &RamenScenarioData,
    picks: Seq<Option<i32>>,
    r: usize,
    k: int,
)
    requires
        before.ramen.pending_ramen == Some(r),
        ground_result(&before, data) is Ok,
        grounded(before, after, data, picks),
        0 <= k < 3,
    ensures
        after.ramen.feeling_stock@[k] + data.recipe(r as int)@[k] == before.ramen.feeling_stock@[k]
            + before.ramen.pending_special_targets@[k],
        after.ramen.special_feeling + before.ramen.pending_special_targets@[0]
            + before.ramen.pending_special_targets@[1] + before.ramen.pending_special_targets@[2]
            == before.ramen.special_feeling,
        after.ramen.feeling_stock@[k] >= 0 || before.ramen.feeling_stock@[k] < 0,
        after.ramen.special_feeling >= 0,
        after.ramen.current_ramen == Some(r),
        after.ramen.feeling_slot == before.ramen.feeling_slot,
        after.ramen.scenario_pt == before.ramen.scenario_pt,
        after.ramen.eat_count == before.ramen.eat_count,
        after.base.uma == before.base.uma,
        after.base.turn == before.base.turn,
        after.stage == before.stage,
{
    let t = ints(before.ramen.pending_special_targets);
    let net = net_cost(ints(data.recipe(r as int)), t);
    let stock = ints(before.ramen.feeling_stock);
    assert(consume_fault(data, &before.ramen, r, t) is None);
    reveal_with_fuel(super::rules::stock_fault_from, 4);
    assert(super::rules::stock_fault_from(stock, net, 0) is None);
    assert(ints(after.ramen.feeling_stock)[k] == after.ramen.feeling_stock@[k]);
    assert(stock[k] == before.ramen.feeling_stock@[k]);
    assert(stock[0] >= net[0] && stock[1] >= net[1] && stock[2] >= net[2]);
}

/// A bowl that cannot be paid for is refused, and nothing in the career changes.
pub proof fn law_refused_bowl_changes_nothing(
    before: RamenGame,
    after: RamenGame,
    data: &RamenScenarioData,
    picks: Seq<Option<i32>>,
    r: usize,
    k: int,
)
    requires
        before.ramen.pending_ramen == Some(r),
        0 <= k < 3,
        before.ramen.feeling_stock@[k] + before.ramen.pending_special_targets@[k] < data.recipe(
            r as int,
        )@[k],
        grounded(before, after, data, picks),
    ensures
        ground_result(&before, data) is Err,
        after == before,
{
    let t = ints(before.ramen.pending_special_targets);
    let net = net_cost(ints(data.recipe(r as int)), t);
    let stock = ints(before.ramen.feeling_stock);
    reveal_with_fuel(super::rules::stock_fault_from, 4);
    assert(stock[k] < net[k]);
    assert(super::rules::stock_fault_from(stock, net, 0) is Some);
}

/// Bowl and hidden flavours can be decided at once while a bowl is to be picked, and only where each
/// kind's hidden flavours make up for what the stock lacks without going beyond the recipe, two in
/// all at most and no more than there are.
pub proof fn law_combined_decision_is_affordable(
    game: RamenGame,
    data: &RamenScenarioData,
    r: usize,
    t: Seq<int>,
)
    requires
        t.len() == 3,
        game.combined_fault(data, Some(r), t) is None,
    ensures
        game.stage == RamenStage::RamenSelect,
        t[0] + t[1] + t[2] <= 2,
        t[0] + t[1] + t[2] <= game.ramen.special_feeling,
        forall|k: int|
            0 <= k < 3 ==> 0 <= #[trigger] t[k] <= data.recipe(r as int)@[k] && (
            game.ramen.feeling_stock@[k] >= 0 ==> t[k] + game.ramen.feeling_stock@[k]
                >= data.recipe(r as int)@[k]),
        data.recipe(r as int)@[0] + data.recipe(r as int)@[1] + data.recipe(r as int)@[2] == 5,
{
    let recipe = ints(data.recipe(r as int));
    let stock = ints(game.ramen.feeling_stock);
    assert forall|k: int| 0 <= k < 3 implies 0 <= #[trigger] t[k] <= data.recipe(r as int)@[k] && (
    game.ramen.feeling_stock@[k] >= 0 ==> t[k] + game.ramen.feeling_stock@[k] >= data.recipe(
        r as int,
    )@[k]) by {
        assert(recipe[k] == data.recipe(r as int)@[k]);
        assert(stock[k] == game.ramen.feeling_stock@[k]);
    }
}

/// The event that closes a year pays at the settlement: the outcome for success where the points were
/// enough, the outcome for failure where they were not, and nothing on turns without a settlement.
pub proof fn law_settlement_pays_by_its_points(
    before: RamenGame,
    after: RamenGame,
    data: &RamenScenarioData,
    uma_data: &UmaData,
    more: bool,
    y: int,
    e: crate::gamedata::event::EventView,
    won: crate::gamedata::event::EventChoice,
    lost: crate::gamedata::event::EventChoice,
)
    requires
        before.stage == RamenStage::NextTurn,
        next_step(before, after, data, uma_data, more),
        (before.base.turn == 23 && y == 0) || (before.base.turn == 47 && y == 1) || (
        before.base.turn == 71 && y == 2),
        before.ramen.rmj_results@.len() == y,
        before.ramen.current_ramen is None,
        data.ramen_success_pt@.len() >= 3,
        super::story::event_by_id(
            crate::gamedata::event::event_views(data.scenario_events@),
            (401404 + y) as u32,
        ) == Some(e),
        e.choices.len() > 0,
        e.choices[0] =~= seq![won, lost] || e.choices[0] =~= seq![lost, won],
        won.result == 2,
        lost.result == 1,
        before.base.uma.value_fits(&won.value),
        before.base.uma.value_fits(&lost.value),
    ensures
        before.ramen.scenario_pt >= data.ramen_success_pt@[y] ==> after.base.uma.skill_pt
            == before.base.uma.skill_pt + won.value.status_pt@[5],
        before.ramen.scenario_pt < data.ramen_success_pt@[y] ==> after.base.uma.skill_pt
            == before.base.uma.skill_pt + lost.value.status_pt@[5],
        after.base.uma.flags == before.base.uma.flags,
        after.base.uma.win_races == before.base.uma.win_races,
{
    lemma_event_by_id(
        crate::gamedata::event::event_views(data.scenario_events@),
        (401404 + y) as u32,
    );
    let results = closing_results(&before, data);
    assert(results[y] == (before.ramen.scenario_pt >= data.ramen_success_pt@[y]));
    super::story::law_closing_event_pays_by_result(e, results, y, won, lost);
}

/// Regions picked at a year's end and the super ramen lead to the beginning of the next turn; regions
/// picked on turn two lead back into the same turn.
pub proof fn law_picks_lead_to_the_next_turn(
    before: RamenGame,
    after: RamenGame,
    data: &RamenScenarioData,
    uma_data: &UmaData,
    more: bool,
)
    requires
        before.stage == RamenStage::RegionSelect || before.stage == RamenStage::SuperRamenSelect,
        before.base.turn < 77,
        next_step(before, after, data, uma_data, more),
    ensures
        before.stage == RamenStage::RegionSelect && before.base.turn == 2 ==> more && after.base.turn
            == 2 && after.stage == RamenStage::BeginAfterRegionSelect,
        before.stage == RamenStage::SuperRamenSelect || before.base.turn != 2 ==> after.base.turn
            == before.base.turn + 1 && after.stage == RamenStage::Begin,
        after.ramen == before.ramen,
        after.persons == before.persons,
        after.base.uma == before.base.uma,
{
}

/// The bowl of the last turn of a year still counts for it: its points are added before the year is
/// recorded and judged.
pub proof fn law_last_bowl_counts_for_its_year(
    before: RamenGame,
    after: RamenGame,
    data: &RamenScenarioData,
    uma_data: &UmaData,
    more: bool,
    y: int,
    points: int,
)
    requires
        before.stage == RamenStage::NextTurn,
        next_step(before, after, data, uma_data, more),
        close_fits(&before, data),
        (before.base.turn == 23 && y == 0) || (before.base.turn == 47 && y == 1) || (
        before.base.turn == 71 && y == 2),
        before.ramen.current_ramen is Some,
        0 <= before.ramen.eat_count,
        data.gain_pt_base@.len() >= 3,
        data.gain_pt_delta@.len() >= 3,
        data.ramen_success_pt@.len() >= 3,
        points == before.ramen.scenario_pt + data.gain_pt_base@[y] + (if before.ramen.eat_count < 5 {
            before.ramen.eat_count * data.gain_pt_delta@[y]
        } else {
            5 * data.gain_pt_delta@[y]
        }),
    ensures
        after.ramen.yearly_scenario_pt@[y] == points,
        after.ramen.yearly_eat_count@[y] == before.ramen.eat_count + 1,
        after.ramen.rmj_results@.last() <==> points >= data.ramen_success_pt@[y],
        after.ramen.scenario_pt == 0,
        after.ramen.eat_count == 0,
{
    let d = data.gain_pt_delta@[y] as int;
    let n = before.ramen.eat_count as int;
    assert(d * n == n * d) by (nonlinear_arith);
}

/// Without a bowl nothing is paid for; a bowl is eaten where it can be made and refused where not.
pub proof fn law_bowl_is_eaten_iff_it_can_be_made(game: RamenGame, data: &RamenScenarioData, r: usize)
    ensures
        game.ramen.pending_ramen is None ==> ground_result(&game, data) is Ok,
        game.ramen.pending_ramen == Some(r) ==> (ground_result(&game, data) is Ok <==> {
            let recipe = data.recipe(r as int)@;
            let t = game.ramen.pending_special_targets@;
            &&& r < 20
            &&& recipe[0] + recipe[1] + recipe[2] == 5
            &&& t[0] + t[1] + t[2] <= 2
            &&& t[0] + t[1] + t[2] <= game.ramen.special_feeling
            &&& 0 <= t[0] <= recipe[0] && 0 <= t[1] <= recipe[1] && 0 <= t[2] <= recipe[2]
            &&& game.ramen.feeling_stock@[0] + t[0] >= recipe[0]
            &&& game.ramen.feeling_stock@[1] + t[1] >= recipe[1]
            &&& game.ramen.feeling_stock@[2] + t[2] >= recipe[2]
        }),
{
    super::rules::law_bowl_is_made_iff(
        data,
        &game.ramen,
        r,
        ints(game.ramen.pending_special_targets),
    );
}

/// Eating a bowl brings cards and the scenario's friend closer, by what the bowls of the year give and
/// up to a hundred.
pub proof fn law_eating_brings_cards_closer(
    before: RamenGame,
    after: RamenGame,
    data: &RamenScenarioData,
    picks: Seq<Option<i32>>,
    i: int,
    y: int,
)
    requires
        before.ramen.pending_ramen is Some,
        ground_result(&before, data) is Ok,
        grounded(before, after, data, picks),
        0 <= i < before.persons@.len(),
        before.persons@[i].person_type == PersonType::Card || before.persons@[i].person_type
            == PersonType::ScenarioCard,
        0 <= before.persons@[i].friendship <= 100,
        y == if before.base.turn <= 23 {
            0int
        } else if before.base.turn <= 47 {
            1
        } else {
            2
        },
        data.ramen_basic_effect@.len() >= 3,
        data.ramen_basic_effect@[y].friendship >= 0,
    ensures
        after.persons@[i].friendship == if before.persons@[i].friendship
            + data.ramen_basic_effect@[y].friendship <= 100 {
            before.persons@[i].friendship + data.ramen_basic_effect@[y].friendship
        } else {
            100
        },
{
    law_bowl_brings_cards_closer(&before, data, true, i, y);
}

/// A bowl of the later regions puts a clone to a covered training with room: with a varied deck, the one
/// training that the region covers gains one person, a card that was not there.
pub proof fn law_later_bowls_bring_a_clone(
    before: RamenGame,
    after: RamenGame,
    data: &RamenScenarioData,
    picks: Seq<Option<i32>>,
    r: usize,
    t: i32,
    p: i32,
)
    requires
        before.ramen.pending_ramen == Some(r),
        ground_result(&before, data) is Ok,
        grounded(before, after, data, picks),
        r >= 5,
        before.deck_can_split,
        0 <= t < 5,
        before.base.distribution@.len() == 5,
        data.ramen_region_effect@[r as int].at_trains@ == seq![t],
        before.base.distribution@[t as int]@.len() < 5,
        0 <= p < before.persons@.len(),
        before.persons@[p as int].person_type == PersonType::Card,
        !before.base.distribution@[t as int]@.contains(p),
    ensures
        ({
            let row = before.base.distribution@[t as int]@;
            let now = after.base.distribution@[t as int]@;
            &&& now.len() == row.len() + 1
            &&& now.drop_last() =~= row
            &&& !row.contains(now.last())
            &&& 0 <= now.last() < before.persons@.len()
            &&& before.persons@[now.last() as int].person_type == PersonType::Card
        }),
{
    let absent = absent_cards_of(before.persons@, before.ramen.absent_cards@);
    let board = fresh_board(before.seats(), absent.len());
    let trains = data.ramen_region_effect@[r as int].at_trains@;
    let row = before.base.distribution@[t as int]@;
    assert(board.seats[t as int] == row);
    reveal_with_fuel(clone_run, 2);
    assert(clone_run(before.persons@, absent, board, trains, picks, 0) == board);
    assert(pick_ok(before.persons@, absent, board, trains[0] as int, picks[0]));
    law_room_for_a_clone(before.persons@, row, p);
    lemma_first_absent_fits(before.persons@, row, absent, board.placed, 0);
    let s = after.seats();
    let step = clone_step(before.persons@, absent, board, t as int, picks[0]);
    assert(trains.len() == 1 && trains[0] == t);
    assert(s == step.seats);
    assert(board.seats.len() == 5);
    assert(s.len() == 5);
    assert(s[t as int] == after.base.distribution@[t as int]@);
    if let Some(k) = first_absent(before.persons@, row, absent, board.placed, 0) {
        lemma_absent_are_cards(before.persons@, before.ramen.absent_cards@, k);
        assert(s[t as int] == row.push(absent[k]));
    } else {
        assert(clone_fits(before.persons@, row, p));
        assert(is_kind(before.persons@, p, PersonType::Card));
        let q = picks[0]->0;
        assert(s[t as int] == row.push(q));
    }
}

proof fn lemma_first_absent_fits(
    persons: Seq<BasePerson>,
    row: Seq<i32>,
    absent: Seq<i32>,
    placed: Seq<bool>,
    from: int,
)
    requires
        0 <= from,
    ensures
        first_absent(persons, row, absent, placed, from) matches Some(k) ==> from <= k < absent.len()
            && clone_fits(persons, row, absent[k]),
    decreases absent.len() - from,
{
    if from < absent.len() && !(!placed[from] && clone_fits(persons, row, absent[from])) {
        lemma_first_absent_fits(persons, row, absent, placed, from + 1);
    }
}

proof fn lemma_absent_are_cards(persons: Seq<BasePerson>, away: Seq<i32>, k: int)
    requires
        0 <= k < absent_cards_of(persons, away).len(),
    ensures
        is_kind(persons, absent_cards_of(persons, away)[k], PersonType::Card),
{
    let f = |p: i32| is_kind(persons, p, PersonType::Card);
    away.lemma_filter_pred(f, k);
}

/// Bowl and hidden flavours can be decided at once wherever they are legal: none is ever refused while a
/// bowl is to be picked, and a bowl is accepted with flavours that make it affordable.
pub proof fn law_legal_combined_decisions_are_accepted(
    game: RamenGame,
    data: &RamenScenarioData,
    r: usize,
    t: Seq<int>,
)
    requires
        t.len() == 3,
        game.stage == RamenStage::RamenSelect,
        r < 20,
        data.recipe(r as int)@[0] + data.recipe(r as int)@[1] + data.recipe(r as int)@[2] == 5,
        t[0] + t[1] + t[2] <= 2,
        t[0] + t[1] + t[2] <= game.ramen.special_feeling,
        forall|k: int|
            0 <= k < 3 ==> 0 <= #[trigger] t[k] <= data.recipe(r as int)@[k]
                && game.ramen.feeling_stock@[k] + t[k] >= data.recipe(r as int)@[k],
    ensures
        game.combined_fault(data, Some(r), t) is None,
        game.combined_fault(data, None, t) is None,
{
    let recipe = ints(data.recipe(r as int));
    let stock = ints(game.ramen.feeling_stock);
    assert(t[0] >= 0 && t[1] >= 0 && t[2] >= 0);
    assert(legal_targets(stock, game.ramen.special_feeling as int, recipe, t));
}

/// Bowl and hidden flavours cannot be decided at once at other stages, for a region that does not exist,
/// or with flavours that are not legal.
pub proof fn law_combined_decision_faults(
    game: RamenGame,
    data: &RamenScenarioData,
    ramen: Option<usize>,
    r: usize,
    t: Seq<int>,
)
    requires
        t.len() == 3,
    ensures
        game.stage != RamenStage::RamenSelect ==> game.combined_fault(data, ramen, t) == Some(
            SimError::WrongStage,
        ),
        game.stage == RamenStage::RamenSelect && r >= 20 ==> game.combined_fault(data, Some(r), t)
            == Some(SimError::RegionOutOfRange { region_id: r }),
        game.stage == RamenStage::RamenSelect && r < 20 && recipe_fault(data, r) is None && t[0]
            + t[1] + t[2] > game.ramen.special_feeling ==> game.combined_fault(data, Some(r), t) == Some(
            SimError::IllegalTargets { ramen_idx: r },
        ),
{
}

/// A decision at once sets bowl and hidden flavours together and marks them as decided, without paying
/// for anything yet; without a bowl there are no flavours either.
pub proof fn law_decision_at_once_is_marked(
    before: RamenGame,
    after: RamenGame,
    ramen: Option<usize>,
    t: Seq<int>,
)
    requires
        decided_at_once(before, after, ramen, t),
        t.len() == 3,
    ensures
        after.ramen.pending_ramen == ramen,
        after.ramen.combined_decision,
        ramen is Some ==> after.ramen.pending_special_targets@[0] == t[0]
            && after.ramen.pending_special_targets@[1] == t[1]
            && after.ramen.pending_special_targets@[2] == t[2],
        ramen is None ==> after.ramen.pending_special_targets@ =~= seq![0i32, 0, 0],
        after.ramen.feeling_stock == before.ramen.feeling_stock,
        after.ramen.special_feeling == before.ramen.special_feeling,
        after.ramen.current_ramen == before.ramen.current_ramen,
        after.base == before.base,
        after.stage == before.stage,
{
    let a = ints(after.ramen.pending_special_targets);
    assert(a[0] == after.ramen.pending_special_targets@[0]);
    assert(a[1] == after.ramen.pending_special_targets@[1]);
    assert(a[2] == after.ramen.pending_special_targets@[2]);
}

} // verus!
