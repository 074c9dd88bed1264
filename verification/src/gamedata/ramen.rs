use vstd::prelude::*;
use crate::game::ramen::effects::sums_fit;
use crate::gamedata::constants::GameConstants;
use crate::gamedata::event::{EventData, NamedEvent};

verus! {

/// What a bowl of ramen gives in one year, wherever it comes from.
#[derive(Debug, Clone, Default)]
pub struct RamenBasicEffect {
    /// Training bonus in percent.
    pub xunlian: i32,
    /// Friendship training bonus in percent.
    pub youqing: i32,
    /// Speciality rate bonus.
    pub deyilv: i32,
    /// Drop of the failure rate in percent.
    pub fail_rate_drop: i32,
    /// Bond gained by every card.
    pub friendship: i32,
    /// Rise of the status and PT caps.
    pub status_limit: i32,
    /// Whether every card of a covered training shows a hint.
    pub hint_special: bool,
}

/// What the ramen of one region adds.
#[derive(Debug, Clone, Default)]
pub struct RegionEffect {
    /// Number of the region.
    pub id: usize,
    /// Display name.
    pub name: String,
    /// Training bonus in percent.
    pub xunlian: i32,
    /// Friendship training bonus in percent.
    pub youqing: i32,
    /// PT bonus in percent.
    pub pt_bonus: i32,
    /// Number of hints triggered.
    pub hint_count: i32,
    /// Training positions that are covered.
    pub at_trains: Vec<i32>,
}

/// The unconditional part of the super ramen.
#[derive(Debug, Clone, Default)]
pub struct FinalsBaseEffect {
    /// Vitality restored every turn.
    pub vital: i32,
    /// Motivation gained every turn.
    pub motivation: i32,
    /// Race bonus, granted once.
    pub saihou: i32,
    /// Friendship training bonus in percent.
    pub youqing: i32,
    /// Hint level.
    pub hint_level: i32,
}

/// The part of the super ramen that needs a varied deck.
#[derive(Debug, Clone, Default)]
pub struct FinalsExtraEffect {
    /// PT bonus in percent.
    pub pt_bonus: i32,
    /// Rise of the PT cap.
    pub pt_limit: i32,
    /// Number of clones.
    pub clone_count: i32,
}

/// The super ramen of the final turns.
#[derive(Debug, Clone, Default)]
pub struct FinalsEffect {
    /// The unconditional part.
    pub base: FinalsBaseEffect,
    /// The part that needs a varied deck.
    pub extra: FinalsExtraEffect,
    /// For every option the trainings it covers.
    pub training_limit_options: Vec<Vec<i32>>,
}

/// Lasting effect of a yearly settlement.
#[derive(Debug, Clone, Default)]
pub struct RmjEffect {
    /// Friendship training bonus in percent.
    pub youqing: i32,
    /// Speciality rate bonus.
    pub deyilv: i32,
    /// Hint rate bonus in percent.
    pub hint: i32,
}

/// Lasting effect of the scenario points gathered this year.
#[derive(Debug, Clone, Default)]
pub struct PtEffect {
    /// Points from which this tier holds.
    pub pt_min: i32,
    /// Training bonus in percent.
    pub xunlian: i32,
    /// Speciality rate bonus.
    pub deyilv: i32,
    /// Hint rate bonus in percent.
    pub hint: i32,
}

/// The rule tables of the ramen scenario.
#[derive(Debug, Clone, Default)]
pub struct RamenScenarioData {
    /// Points that make a yearly settlement a success, by year.
    pub ramen_success_pt: Vec<i32>,
    /// Points of the first bowl, by year.
    pub gain_pt_base: Vec<i32>,
    /// Points that every further bowl adds, by year.
    pub gain_pt_delta: Vec<i32>,
    /// Effect of eating, by year.
    pub ramen_basic_effect: Vec<RamenBasicEffect>,
    /// Effect of the super ramen.
    pub finals_effect: FinalsEffect,
    /// Lasting effect of a successful settlement, by year.
    pub ramen_success_effect: Vec<RmjEffect>,
    /// Lasting effect of a failed settlement, by year.
    pub ramen_fail_effect: Vec<RmjEffect>,
    /// Tiers of the scenario points.
    pub ramen_pt_effect: Vec<PtEffect>,
    /// Recipes by region: feeling points of kind A, B and C.
    pub region_feeling: Vec<[i32; 3]>,
    /// Region bonus by tier.
    pub region_bonus: Vec<i32>,
    /// Effects by region.
    pub ramen_region_effect: Vec<RegionEffect>,
    /// Events of the scenario.
    pub scenario_events: Vec<EventData>,
    /// Events of the scenario's friend, by name.
    pub friend_events: Vec<NamedEvent>,
    /// Status caps, where they differ from those that all scenarios share.
    pub five_status_limit_base: Option<[i32; 5]>,
}

impl RamenScenarioData {
    /// The status caps of the scenario: its own, or those that all scenarios share.
    pub fn status_limit_base(&self, cons: &GameConstants) -> (limits: [i32; 5])
        ensures
            limits == match self.five_status_limit_base {
                Some(own) => own,
                None => cons.five_status_limit_base,
            },
    {
        match self.five_status_limit_base {
            Some(own) => own,
            None => cons.five_status_limit_base,
        }
    }

    /// The recipe of a region; the regions of the third year reuse the first recipes.
    pub open spec fn recipe(&self, region: int) -> [i32; 3] {
        self.region_feeling@[region % self.region_feeling@.len() as int]
    }

    /// The effect tables have an entry for each year, and whatever entries take effect together add up
    /// to machine integers.
    pub open spec fn complete(&self) -> bool {
        &&& self.ramen_pt_effect@.len() > 0
        &&& self.ramen_basic_effect@.len() > 0
        &&& self.ramen_success_effect@.len() >= 3
        &&& self.ramen_fail_effect@.len() >= 3
        &&& sums_fit(self)
    }

    /// There are recipes, no recipe asks for a negative amount, and amounts can be added up.
    pub open spec fn recipes_valid(&self) -> bool {
        &&& self.region_feeling@.len() > 0
        &&& forall|r: int, j: int|
            0 <= r < self.region_feeling@.len() && 0 <= j < 3 ==> 0
                <= #[trigger] self.region_feeling@[r]@[j] && 9 * self.region_feeling@[r]@[j]
                <= i32::MAX
    }
}

} // verus!
