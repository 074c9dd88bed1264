pub mod action;
pub mod begin;
pub mod clones;
pub mod decisions;
pub mod distribution;
pub mod effects;
pub mod events;
pub mod game;
pub mod hints;
pub mod persons;
pub mod report;
pub mod policy;
pub mod policy_schema;
pub mod rules;
pub mod story;
pub mod training;
pub mod training_sample;

use vstd::prelude::*;
use crate::error::SimError;
use crate::game::base::person::BasePerson;
use crate::game::base::state::BaseGame;

verus! {

/// The three kinds of feeling points.
#[derive(Debug, Clone, Copy, PartialEq, Eq, Structural)]
pub enum FeelingType {
    A,
    B,
    C,
}

impl FeelingType {
    /// Position of the kind in every table that is kept by kind.
    pub open spec fn idx(self) -> int {
        match self {
            FeelingType::A => 0,
            FeelingType::B => 1,
            FeelingType::C => 2,
        }
    }

    /// The kind at a position; the third kind for anything but zero and one.
    pub open spec fn of(i: int) -> FeelingType {
        if i == 0 {
            FeelingType::A
        } else if i == 1 {
            FeelingType::B
        } else {
            FeelingType::C
        }
    }

    /// Position of the kind.
    pub fn index(self) -> (i: usize)
        ensures
            i == self.idx(),
            i < 3,
    {
        match self {
            FeelingType::A => 0,
            FeelingType::B => 1,
            FeelingType::C => 2,
        }
    }

    /// The kind with this number, if there is one.
    pub fn try_from(value: i32) -> (r: Option<FeelingType>)
        ensures
            r is Some <==> 0 <= value < 3,
            r matches Some(ft) ==> ft.idx() == value,
    {
        match value {
            0 => Some(FeelingType::A),
            1 => Some(FeelingType::B),
            2 => Some(FeelingType::C),
            _ => None,
        }
    }
}

/// The state of the ramen scenario.
#[derive(Debug, Clone)]
pub struct RamenState {
    /// Gauges by kind; a full gauge turns into one feeling point.
    pub feeling_slot: [i32; 3],
    /// Feeling points in stock, by kind.
    pub feeling_stock: [i32; 3],
    /// The feeling points in the order in which they were gained.
    pub feeling_queue: Vec<FeelingType>,
    /// Hidden flavours in stock.
    pub special_feeling: i32,
    /// The regions picked for this year.
    pub selected_regions: [usize; 3],
    /// The bowl eaten this turn.
    pub current_ramen: Option<usize>,
    /// The bowl picked but not yet eaten.
    pub pending_ramen: Option<usize>,
    /// The hidden flavours picked for that bowl.
    pub pending_special_targets: [i32; 3],
    /// Whether bowl and hidden flavours were picked in one step.
    pub combined_decision: bool,
    /// Scenario points gathered this year.
    pub scenario_pt: i32,
    /// Bowls eaten this year.
    pub eat_count: i32,
    /// Outcomes of the yearly settlements so far.
    pub rmj_results: Vec<bool>,
    /// Training levels granted by the settlements.
    pub train_level_bonus: i32,
    /// The kind shown at each training this turn.
    pub train_feeling_type: Option<[FeelingType; 5]>,
    /// Persons that stayed away this turn, in the order in which that was decided.
    pub absent_cards: Vec<i32>,
    /// The option picked for the super ramen.
    pub super_ramen: Option<usize>,
    /// The year to which the counters below are credited.
    pub obs_year: usize,
    /// Feeling points gained from full gauges, by year.
    pub yearly_gauge_gain: [i32; 3],
    /// Feeling points lost to the stock limit, by year.
    pub yearly_gauge_overflow: [i32; 3],
    /// Scenario points at the settlement, by year.
    pub yearly_scenario_pt: [i32; 3],
    /// Bowls eaten, by year.
    pub yearly_eat_count: [i32; 3],
    /// Regions picked, by year.
    pub yearly_selected_regions: [[usize; 3]; 3],
}

impl Default for RamenState {
    fn default() -> (s: RamenState)
        ensures
            s.feeling_slot@ == seq![0i32, 0, 0],
            s.feeling_stock@ == seq![0i32, 0, 0],
            s.feeling_queue@ == Seq::<FeelingType>::empty(),
            s.special_feeling == 0,
            s.selected_regions@ == seq![0usize, 0, 0],
            s.current_ramen is None,
            s.pending_ramen is None,
            s.pending_special_targets@ == seq![0i32, 0, 0],
            !s.combined_decision,
            s.scenario_pt == 0,
            s.eat_count == 0,
            s.rmj_results@ == Seq::<bool>::empty(),
            s.train_level_bonus == 0,
            s.train_feeling_type is None,
            s.absent_cards@ == Seq::<i32>::empty(),
            s.super_ramen is None,
            s.obs_year == 0,
            s.yearly_gauge_gain@ == seq![0i32, 0, 0],
            s.yearly_gauge_overflow@ == seq![0i32, 0, 0],
            s.yearly_scenario_pt@ == seq![0i32, 0, 0],
            s.yearly_eat_count@ == seq![0i32, 0, 0],
            forall|y: int| 0 <= y < 3 ==> (#[trigger] s.yearly_selected_regions@[y])@ == seq![0usize, 0, 0],
    {
        RamenState {
            feeling_slot: [0, 0, 0],
            feeling_stock: [0, 0, 0],
            feeling_queue: Vec::new(),
            special_feeling: 0,
            selected_regions: [0, 0, 0],
            current_ramen: None,
            pending_ramen: None,
            pending_special_targets: [0, 0, 0],
            combined_decision: false,
            scenario_pt: 0,
            eat_count: 0,
            rmj_results: Vec::new(),
            train_level_bonus: 0,
            train_feeling_type: None,
            absent_cards: Vec::new(),
            super_ramen: None,
            obs_year: 0,
            yearly_gauge_gain: [0, 0, 0],
            yearly_gauge_overflow: [0, 0, 0],
            yearly_scenario_pt: [0, 0, 0],
            yearly_eat_count: [0, 0, 0],
            yearly_selected_regions: [[0, 0, 0], [0, 0, 0], [0, 0, 0]],
        }
    }
}

/// The stages of a turn.
#[derive(Debug, Clone, Copy, PartialEq, Eq, Structural, Default)]
pub enum RamenStage {
    /// The turn begins.
    #[default]
    Begin,
    /// The turn goes on after regions were picked at its beginning.
    BeginAfterRegionSelect,
    /// Persons go to the trainings.
    Distribute,
    /// A bowl is picked.
    RamenSelect,
    /// The hidden flavours for the bowl are picked.
    SpecialSelect,
    /// The turn's action is picked.
    Train,
    /// Events that waited take place.
    AfterTrain,
    /// The turn ends.
    NextTurn,
    /// The regions of a year are picked.
    RegionSelect,
    /// The super ramen is picked.
    SuperRamenSelect,
    /// The year is settled.
    Settlement,
}

impl RamenStage {
    /// The stage that follows within a turn, where no rule of the scenario decides.
    pub open spec fn following(self) -> Option<RamenStage> {
        match self {
            RamenStage::Begin => Some(RamenStage::Distribute),
            RamenStage::BeginAfterRegionSelect => Some(RamenStage::Distribute),
            RamenStage::Distribute => Some(RamenStage::RamenSelect),
            RamenStage::Train => Some(RamenStage::AfterTrain),
            _ => None,
        }
    }

    /// The stage that follows within a turn, where no rule of the scenario decides.
    pub fn next(self) -> (r: Option<RamenStage>)
        ensures
            r == self.following(),
    {
        match self {
            RamenStage::Begin => Some(RamenStage::Distribute),
            RamenStage::BeginAfterRegionSelect => Some(RamenStage::Distribute),
            RamenStage::Distribute => Some(RamenStage::RamenSelect),
            RamenStage::Train => Some(RamenStage::AfterTrain),
            _ => None,
        }
    }
}

/// The year that a settlement turn closes.
pub open spec fn settled_year(turn: int) -> Option<int> {
    if turn == 23 {
        Some(0)
    } else if turn == 47 {
        Some(1)
    } else if turn == 71 {
        Some(2)
    } else {
        None
    }
}

/// The year for which regions are picked on a turn.
pub open spec fn region_year(turn: int) -> Option<int> {
    if turn == 2 {
        Some(0)
    } else if turn == 23 {
        Some(1)
    } else if turn == 47 {
        Some(2)
    } else {
        None
    }
}

/// Points and bowls of a year stand recorded.
pub open spec fn archived(before: RamenState, after: RamenState, year_idx: int) -> bool {
    &&& after.yearly_scenario_pt@ == before.yearly_scenario_pt@.update(
        year_idx,
        before.scenario_pt,
    )
    &&& after.yearly_eat_count@ == before.yearly_eat_count@.update(year_idx, before.eat_count)
    &&& after == (RamenState {
        yearly_scenario_pt: after.yearly_scenario_pt,
        yearly_eat_count: after.yearly_eat_count,
        ..before
    })
}

impl RamenState {
    /// Drops the decision in progress.
    pub fn clear_pending(&mut self)
        ensures
            final(self).pending_special_targets@ == seq![0i32, 0, 0],
            *final(self) == (RamenState {
                pending_ramen: None,
                pending_special_targets: final(self).pending_special_targets,
                combined_decision: false,
                ..*old(self)
            }),
    {
        self.pending_ramen = None;
        self.pending_special_targets = [0, 0, 0];
        self.combined_decision = false;
    }

    /// The year that a settlement turn closes. Refused on other turns.
    pub fn rmj_archive_year_idx(turn: i32) -> (r: Result<usize, SimError>)
        ensures
            match r {
                Ok(y) => settled_year(turn as int) == Some(y as int),
                Err(e) => settled_year(turn as int) is None && e == (SimError::TurnOutOfRange {
                    turn,
                }),
            },
    {
        match turn {
            23 => Ok(0),
            47 => Ok(1),
            71 => Ok(2),
            _ => Err(SimError::TurnOutOfRange { turn }),
        }
    }

    /// The year for which regions are picked on a turn. Refused on turns without such a pick.
    pub fn region_archive_year_idx(turn: i32) -> (r: Result<usize, SimError>)
        ensures
            match r {
                Ok(y) => region_year(turn as int) == Some(y as int),
                Err(e) => region_year(turn as int) is None && e == (SimError::TurnOutOfRange {
                    turn,
                }),
            },
    {
        match turn {
            2 => Ok(0),
            23 => Ok(1),
            47 => Ok(2),
            _ => Err(SimError::TurnOutOfRange { turn }),
        }
    }

    /// Records points and bowls of a year. Refused for a year beyond the third.
    pub fn archive_year_counters(&mut self, year_idx: usize) -> (r: Result<(), SimError>)
        ensures
            match r {
                Ok(_) => year_idx < 3 && final(self).yearly_scenario_pt@
                    == old(self).yearly_scenario_pt@.update(
                    year_idx as int,
                    old(self).scenario_pt,
                ) && final(self).yearly_eat_count@ == old(self).yearly_eat_count@.update(
                    year_idx as int,
                    old(self).eat_count,
                ),
                Err(e) => {
                    &&& year_idx >= 3
                    &&& e == (SimError::YearOutOfRange { year_idx })
                    &&& *final(self) == *old(self)
                },
            },
            *final(self) == (RamenState {
                yearly_scenario_pt: final(self).yearly_scenario_pt,
                yearly_eat_count: final(self).yearly_eat_count,
                ..*old(self)
            }),
            r is Ok ==> archived(*old(self), *final(self), year_idx as int),
    {
        if year_idx >= 3 {
            return Err(SimError::YearOutOfRange { year_idx });
        }
        self.yearly_scenario_pt[year_idx] = self.scenario_pt;
        self.yearly_eat_count[year_idx] = self.eat_count;
        Ok(())
    }
}

/// A career in the ramen scenario.
#[derive(Debug, Clone, Default)]
pub struct RamenGame {
    /// What all scenarios keep.
    pub base: BaseGame,
    /// The persons that can stand at the trainings.
    pub persons: Vec<BasePerson>,
    /// The scenario's own state.
    pub ramen: RamenState,
    /// The stage of the turn.
    pub stage: RamenStage,
    /// Whether the deck is varied enough for clones.
    pub deck_can_split: bool,
    /// Cards of the deck by kind.
    pub card_type_count: [i32; 7],
}

/// The year of a turn, from one.
pub open spec fn year_of(turn: int) -> int {
    if turn < 24 {
        1
    } else if turn < 48 {
        2
    } else {
        3
    }
}

/// A turn on which the super ramen works by itself.
pub open spec fn super_turn(turn: int) -> bool {
    72 <= turn <= 77
}

/// A turn on which bowls can be picked: from turn two until the super ramen.
pub open spec fn bowl_turn(turn: int) -> bool {
    turn >= 2 && !super_turn(turn)
}

/// The last turn.
pub const MAX_TURN: i32 = 77;

impl RamenGame {
    /// The turn, from zero.
    pub fn turn(&self) -> (t: i32)
        ensures
            t == self.base.turn,
    {
        self.base.turn
    }

    /// The last turn.
    pub fn max_turn(&self) -> (t: i32)
        ensures
            t == MAX_TURN,
    {
        MAX_TURN
    }

    /// The year, from one.
    pub fn current_year(&self) -> (y: i32)
        ensures
            y == year_of(self.base.turn as int),
    {
        if self.base.turn < 24 {
            1
        } else if self.base.turn < 48 {
            2
        } else {
            3
        }
    }

    /// The year, from zero.
    pub fn year_idx(&self) -> (y: usize)
        ensures
            y == year_of(self.base.turn as int) - 1,
            y < 3,
    {
        (self.current_year() - 1) as usize
    }

    /// Whether the super ramen works by itself this turn.
    pub fn is_super_ramen_turn(&self) -> (b: bool)
        ensures
            b == super_turn(self.base.turn as int),
    {
        72 <= self.base.turn && self.base.turn <= 77
    }

    /// Whether a year is settled at the end of this turn.
    pub fn is_rmj_turn(&self) -> (b: bool)
        ensures
            b == (settled_year(self.base.turn as int) is Some),
    {
        self.base.turn == 23 || self.base.turn == 47 || self.base.turn == 71
    }
}

/// A settlement closes the year it falls into.
pub proof fn law_settlement_closes_its_year(turn: int)
    requires
        settled_year(turn) is Some,
    ensures
        settled_year(turn) == Some(year_of(turn) - 1),
        year_of(turn + 1) == year_of(turn) + 1 || turn == 71,
{
}

/// Regions are always picked for the year that begins after the pick: on turn two for the first
/// year, at a settlement for the next.
pub proof fn law_regions_are_for_the_coming_year(turn: int)
    requires
        region_year(turn) is Some,
    ensures
        region_year(turn) == Some(year_of(turn + 1) - 1),
        turn != 2 ==> region_year(turn) == Some(settled_year(turn)->0 + 1),
{
}

/// The calendar: the years begin on turns zero, twenty-four and forty-eight; the super ramen has turns
/// seventy-two to seventy-seven; bowls are picked from turn two until then.
pub proof fn law_calendar(turn: int)
    ensures
        year_of(turn) == 1 <==> turn <= 23,
        year_of(turn) == 2 <==> 24 <= turn <= 47,
        year_of(turn) == 3 <==> 48 <= turn,
        super_turn(turn) <==> 72 <= turn <= 77,
        bowl_turn(turn) <==> (2 <= turn <= 71 || turn >= 78),
        MAX_TURN == 77,
        settled_year(turn) == Some(0int) <==> turn == 23,
        settled_year(turn) == Some(1int) <==> turn == 47,
        settled_year(turn) == Some(2int) <==> turn == 71,
        region_year(turn) == Some(0int) <==> turn == 2,
        region_year(turn) == Some(1int) <==> turn == 23,
        region_year(turn) == Some(2int) <==> turn == 47,
{
}

/// The kinds stand at places zero to two, and each place brings back its kind.
pub proof fn law_kinds_have_places(k: FeelingType, i: int)
    ensures
        FeelingType::A.idx() == 0 && FeelingType::B.idx() == 1 && FeelingType::C.idx() == 2,
        FeelingType::of(k.idx()) == k,
        0 <= i < 3 ==> FeelingType::of(i).idx() == i,
{
}

/// Within a turn the beginning leads to the distribution, the distribution to the bowls and the
/// training to what it leaves to be done; on every other stage a rule of the scenario decides.
pub proof fn law_stages_within_a_turn(s: RamenStage)
    ensures
        RamenStage::Begin.following() == Some(RamenStage::Distribute),
        RamenStage::BeginAfterRegionSelect.following() == Some(RamenStage::Distribute),
        RamenStage::Distribute.following() == Some(RamenStage::RamenSelect),
        RamenStage::Train.following() == Some(RamenStage::AfterTrain),
        s == RamenStage::RamenSelect || s == RamenStage::SpecialSelect || s == RamenStage::AfterTrain
            || s == RamenStage::NextTurn || s == RamenStage::RegionSelect || s
            == RamenStage::SuperRamenSelect || s == RamenStage::Settlement ==> s.following() is None,
{
}

/// Recording a year keeps its points and bowls under that year, and touches neither the other years
/// nor the running counts.
pub proof fn law_year_is_recorded_in_its_place(
    before: RamenState,
    after: RamenState,
    y: int,
    k: int,
)
    requires
        archived(before, after, y),
        0 <= y < 3,
        0 <= k < 3,
    ensures
        k == y ==> after.yearly_scenario_pt@[k] == before.scenario_pt && after.yearly_eat_count@[k]
            == before.eat_count,
        k != y ==> after.yearly_scenario_pt@[k] == before.yearly_scenario_pt@[k]
            && after.yearly_eat_count@[k] == before.yearly_eat_count@[k],
        after.scenario_pt == before.scenario_pt,
        after.eat_count == before.eat_count,
        after.feeling_stock == before.feeling_stock,
{
}

} // verus!
