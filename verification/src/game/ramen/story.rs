use vstd::prelude::*;
use super::events::EVENT_FRIEND_UNLOCK;
use super::persons::{bonded, Bonds};
use super::RamenGame;
use crate::game::base::state::{times, BaseGame, FriendOutState, FriendState};
use crate::game::uma::{Uma, UmaFlags};
use crate::gamedata::event::{event_views, ActionValue, EventChoice, EventData, EventView};
use crate::gamedata::ramen::RamenScenarioData;

verus! {

/// The event that closes a year.
pub open spec fn rmj_event_id(year_idx: int) -> Option<u32> {
    if year_idx == 0 {
        Some(401404)
    } else if year_idx == 1 {
        Some(401405)
    } else if year_idx == 2 {
        Some(401406)
    } else {
        None
    }
}

/// The year that an event closes.
pub open spec fn rmj_year(event_id: u32) -> Option<int> {
    if event_id == 401404 {
        Some(0)
    } else if event_id == 401405 {
        Some(1)
    } else if event_id == 401406 {
        Some(2)
    } else {
        None
    }
}

/// Years and the events that close them stand for each other.
pub proof fn law_rmj_events_roundtrip(year_idx: int, event_id: u32)
    ensures
        rmj_event_id(year_idx) matches Some(id) ==> rmj_year(id) == Some(year_idx),
        rmj_year(event_id) matches Some(y) ==> rmj_event_id(y) == Some(event_id),
{
}

/// The year that an event closes, if it closes one.
pub fn rmj_event_year(event_id: u32) -> (r: Option<usize>)
    ensures
        match r {
            Some(y) => rmj_year(event_id) == Some(y as int),
            None => rmj_year(event_id) is None,
        },
{
    match event_id {
        401404 => Some(0),
        401405 => Some(1),
        401406 => Some(2),
        _ => None,
    }
}

/// The first event of a list with a number.
pub open spec fn event_by_id(list: Seq<EventView>, id: u32) -> Option<EventView>
    decreases list.len(),
{
    if list.len() == 0 {
        None
    } else if list[0].id == id {
        Some(list[0])
    } else {
        event_by_id(list.drop_first(), id)
    }
}

/// The event of the scenario with a number, if there is one.
pub fn find_scenario_event(data: &RamenScenarioData, target_id: u32) -> (r: Option<EventData>)
    ensures
        match r {
            Some(e) => event_by_id(event_views(data.scenario_events@), target_id) == Some(e@),
            None => event_by_id(event_views(data.scenario_events@), target_id) is None,
        },
{
    let ghost all = event_views(data.scenario_events@);
    let mut i: usize = 0;
    assert(all.skip(0) =~= all);
    while i < data.scenario_events.len()
        invariant
            i <= all.len(),
            all == event_views(data.scenario_events@),
            event_by_id(all, target_id) == event_by_id(all.skip(i as int), target_id),
        decreases all.len() - i,
    {
        assert(all.skip(i as int)[0] == data.scenario_events@[i as int]@);
        if data.scenario_events[i].id == target_id {
            return Some(data.scenario_events[i].clone());
        }
        assert(all.skip(i as int).drop_first() =~= all.skip(i as int + 1));
        i = i + 1;
    }
    assert(all.skip(all.len() as int) =~= Seq::<EventView>::empty());
    None
}

/// The event that closes a year, as the tables hold it.
pub open spec fn rmj_event(data: &RamenScenarioData, year_idx: int) -> Option<EventView> {
    match rmj_event_id(year_idx) {
        Some(id) => event_by_id(event_views(data.scenario_events@), id),
        None => None,
    }
}

/// The event that closes a year, if the tables hold it.
pub fn find_rmj_event(data: &RamenScenarioData, year_idx: usize) -> (r: Option<EventData>)
    ensures
        match r {
            Some(e) => rmj_event(data, year_idx as int) == Some(e@),
            None => rmj_event(data, year_idx as int) is None,
        },
{
    match year_idx {
        0 => find_scenario_event(data, 401404),
        1 => find_scenario_event(data, 401405),
        2 => find_scenario_event(data, 401406),
        _ => None,
    }
}

/// The first outcome with a result number, from a position on.
pub open spec fn with_result(choices: Seq<EventChoice>, result: int, from: int) -> Option<EventChoice>
    decreases choices.len() - from,
{
    if from >= choices.len() {
        None
    } else if choices[from].result == result {
        Some(choices[from])
    } else {
        with_result(choices, result, from + 1)
    }
}

/// The outcome of the event that closes a year: that for success or that for failure; the first
/// where it is missing or the year has not been settled.
pub open spec fn rmj_choice(choices: Seq<EventChoice>, is_success: Option<bool>) -> Option<EventChoice> {
    if choices.len() == 0 {
        None
    } else {
        match is_success {
            None => Some(choices[0]),
            Some(b) => match with_result(
                choices,
                if b {
                    2
                } else {
                    1
                },
                0,
            ) {
                Some(c) => Some(c),
                None => Some(choices[0]),
            },
        }
    }
}

/// The outcome of the event that closes a year.
pub fn select_rmj_choice_by_result(choices: &Vec<EventChoice>, is_success: Option<bool>) -> (r: Option<
    EventChoice,
>)
    ensures
        r == rmj_choice(choices@, is_success),
{
    if choices.len() == 0 {
        return None;
    }
    let target: i32 = match is_success {
        Some(b) => if b {
            2
        } else {
            1
        },
        None => {
            return Some(choices[0]);
        },
    };
    let mut i: usize = 0;
    while i < choices.len()
        invariant
            i <= choices@.len(),
            choices@.len() > 0,
            is_success matches Some(b) && target == if b {
                2int
            } else {
                1
            },
            with_result(choices@, target as int, 0) == with_result(
                choices@,
                target as int,
                i as int,
            ),
        decreases choices@.len() - i,
    {
        if choices[i].result == target {
            return Some(choices[i]);
        }
        i = i + 1;
    }
    Some(choices[0])
}

/// A settled year brings the outcome for its result, where the event has one.
pub proof fn law_rmj_choice_follows_result(choices: Seq<EventChoice>, success: bool, i: int)
    requires
        0 <= i < choices.len(),
        choices[i].result == if success {
            2int
        } else {
            1
        },
    ensures
        rmj_choice(choices, Some(success)) matches Some(c) && c.result == choices[i].result,
{
    lemma_with_result(choices, choices[i].result as int, 0, i);
}

proof fn lemma_with_result(choices: Seq<EventChoice>, result: int, from: int, i: int)
    requires
        0 <= from <= i < choices.len(),
        choices[i].result == result,
    ensures
        with_result(choices, result, from) matches Some(c) && c.result == result,
    decreases i - from,
{
    if choices[from].result != result {
        lemma_with_result(choices, result, from + 1, i);
    }
}

/// What chance decides within an event.
#[derive(Debug, Clone, Copy)]
pub struct EventDraws {
    /// Status values and skill points that are inherited.
    pub inherit_value: [i32; 6],
    /// Rise of the status caps that is inherited.
    pub inherit_limit: [i32; 5],
    /// Whether the discount on skills is learnt.
    pub qiezhe: bool,
}

/// Inherited status values.
pub open spec fn inherited(draws: &EventDraws) -> ActionValue {
    ActionValue {
        status_pt: draws.inherit_value,
        vital: 0,
        max_vital: 0,
        motivation: 0,
        hint_level: 0,
        friendship: 0,
    }
}

/// An event on which something is inherited.
pub open spec fn inherits(id: u32) -> bool {
    id == 4012 || id == 4013
}

/// The conditions after an event.
pub open spec fn event_flags(u: Uma, id: u32, outcome: Option<EventChoice>, draws: &EventDraws) -> UmaFlags {
    let f = match outcome {
        Some(c) => u.flags_after(&c),
        None => u.flags,
    };
    if id == 5007 {
        UmaFlags { qiezhe: f.qiezhe || draws.qiezhe, ..f }
    } else if id == EVENT_FRIEND_UNLOCK {
        UmaFlags { refresh_mind: 1, ..f }
    } else {
        f
    }
}

/// The outcome's values have been applied.
pub open spec fn outcome_step(u: Uma, outcome: Option<EventChoice>, after: Uma) -> bool {
    match outcome {
        Some(c) => u.value_step(&c.value, (Uma { flags: u.flags, ..after })),
        None => after == (Uma { flags: after.flags, ..u }),
    }
}

/// What is inherited has been applied: the values, then the rise of the caps.
pub open spec fn inherit_step(u: Uma, draws: &EventDraws, after: Uma) -> bool {
    &&& u.value_step(
        &inherited(draws),
        (Uma { five_status_limit: u.five_status_limit, ..after }),
    )
    &&& forall|i: int|
        0 <= i < 5 ==> #[trigger] after.five_status_limit@[i] == u.five_status_limit@[i]
            + draws.inherit_limit@[i]
}

/// The effects that some events have besides their outcome have been applied.
pub open spec fn special_step(u: Uma, id: u32, draws: &EventDraws, after: Uma) -> bool {
    if inherits(id) {
        after.flags == u.flags && inherit_step(u, draws, after)
    } else if id == 5007 {
        after == (Uma {
            flags: UmaFlags { qiezhe: u.flags.qiezhe || draws.qiezhe, ..u.flags },
            ..u
        })
    } else if id == EVENT_FRIEND_UNLOCK {
        after == (Uma { flags: UmaFlags { refresh_mind: 1, ..u.flags }, ..u })
    } else {
        after == u
    }
}

proof fn lemma_event_uma(
    u: Uma,
    id: u32,
    outcome: Option<EventChoice>,
    draws: &EventDraws,
    mid: Uma,
    after: Uma,
)
    requires
        outcome_step(u, outcome, mid),
        mid.flags == match outcome {
            Some(c) => u.flags_after(&c),
            None => u.flags,
        },
        special_step(mid, id, draws, after),
    ensures
        uma_event(u, id, outcome, draws, after),
{
    if !inherits(id) {
        assert((Uma { flags: u.flags, ..after }) == (Uma { flags: u.flags, ..mid }));
    }
}

/// The character after an event.
pub open spec fn uma_event(
    u: Uma,
    id: u32,
    outcome: Option<EventChoice>,
    draws: &EventDraws,
    after: Uma,
) -> bool {
    &&& after.flags == event_flags(u, id, outcome, draws)
    &&& if inherits(id) {
        exists|mid: Uma|
            mid.flags == after.flags && #[trigger] outcome_step(u, outcome, mid) && inherit_step(
                mid,
                draws,
                after,
            )
    } else {
        outcome_step(u, outcome, after)
    }
}

/// The numbers of an event stay within the range of machine integers.
pub open spec fn event_fits(u: Uma, id: u32, outcome: Option<EventChoice>, draws: &EventDraws) -> bool {
    &&& outcome matches Some(c) ==> u.value_fits(&c.value) && u.flags_fit(&c)
    &&& inherits(id) ==> {
        &&& forall|mid: Uma| #[trigger]
            outcome_step(u, outcome, mid) ==> mid.value_fits(&inherited(draws))
        &&& forall|i: int|
            0 <= i < 5 ==> i32::MIN <= #[trigger] u.five_status_limit@[i] + draws.inherit_limit@[i]
                <= i32::MAX
    }
}

/// The person whose bond an event changes, and by how much.
pub open spec fn event_bond(e: EventView, outcome: Option<EventChoice>) -> Option<(i32, i32)> {
    match (e.person_index, outcome) {
        (Some(p), Some(c)) => if c.value.friendship != 0 {
            Some((p, c.value.friendship))
        } else {
            None
        },
        _ => None,
    }
}

/// The result of a year, once it has been settled.
pub open spec fn year_result(results: Seq<bool>, year_idx: int) -> Option<bool> {
    if 0 <= year_idx < results.len() {
        Some(results[year_idx])
    } else {
        None
    }
}

/// The outcome that the event that closes a year has now.
pub open spec fn rmj_outcome_of(e: EventView, results: Seq<bool>) -> Option<EventChoice> {
    match rmj_year(e.id) {
        Some(y) => if e.choices.len() > 0 {
            rmj_choice(e.choices[0], year_result(results, y))
        } else {
            None
        },
        None => None,
    }
}

/// The character after the event that closes a year: only the values of its outcome are applied.
pub open spec fn uma_rmj(u: Uma, outcome: Option<EventChoice>, after: Uma) -> bool {
    match outcome {
        Some(c) => u.value_step(&c.value, after),
        None => after == u,
    }
}

/// An event has taken place: it is counted, the character has its outcome, the person it concerns the
/// bond, and the friend's outings are open where the event opens them.
pub open spec fn event_took_place(
    before: RamenGame,
    after: RamenGame,
    e: EventView,
    outcome: Option<EventChoice>,
    draws: &EventDraws,
) -> bool {
    let b = Bonds { persons: before.persons@, deck: before.base.deck@ };
    let bonds = match event_bond(e, outcome) {
        Some((p, v)) => bonded(b, p as int, v as int),
        None => b,
    };
    &&& after.base.events@ == before.base.events@.insert(
        e.id,
        (times(before.base.events@, e.id) + 1) as i32,
    )
    &&& rmj_year(e.id) is Some ==> uma_rmj(
        before.base.uma,
        rmj_outcome_of(e, before.ramen.rmj_results@),
        after.base.uma,
    )
    &&& rmj_year(e.id) is None ==> {
        &&& uma_event(before.base.uma, e.id, outcome, draws, after.base.uma)
        &&& after.persons@ == bonds.persons
        &&& after.base.deck@ == bonds.deck
        &&& after.base.friend == if e.id == EVENT_FRIEND_UNLOCK {
            FriendState { out_state: FriendOutState::AfterUnlock, ..before.base.friend }
        } else {
            before.base.friend
        }
    }
}

impl RamenGame {
    /// Applies the event that closes a year: the outcome for the year's result.
    pub fn apply_rmj_event(&mut self, event: &EventData, year_idx: usize)
        requires
            rmj_year(event.id) == Some(year_idx as int),
            rmj_outcome_of(event@, old(self).ramen.rmj_results@) matches Some(c)
                ==> old(self).base.uma.value_fits(&c.value),
            times(old(self).base.events@, event.id) < i32::MAX,
        ensures
            uma_rmj(
                old(self).base.uma,
                rmj_outcome_of(event@, old(self).ramen.rmj_results@),
                final(self).base.uma,
            ),
            final(self).base.events@ == old(self).base.events@.insert(
                event.id,
                (times(old(self).base.events@, event.id) + 1) as i32,
            ),
            *final(self) == (RamenGame {
                base: BaseGame {
                    uma: final(self).base.uma,
                    events: final(self).base.events,
                    ..old(self).base
                },
                ..*old(self)
            }),
    {
        assert(event@.choices.len() == event.choices@.len());
        if event.choices.len() > 0 {
            let result: Option<bool> = if year_idx < self.ramen.rmj_results.len() {
                Some(self.ramen.rmj_results[year_idx])
            } else {
                None
            };
            assert(event@.choices[0] == event.choices@[0]@);
            match select_rmj_choice_by_result(&event.choices[0], result) {
                Some(c) => {
                    self.base.uma.add_value(&c.value);
                },
                None => {},
            }
        }
        self.base.count_event(event.id);
    }

    /// Applies an event, given which of the picked option's outcomes has come and what chance
    /// decides within it.
    ///
    /// The event that closes a year goes by the year's result instead. Other events apply values
    /// and conditions of the outcome, change the bond of the person they concern, and some have
    /// effects of their own: values and caps are inherited, the discount on skills is learnt, or
    /// outings with the friend are opened.
    pub fn apply_event(&mut self, event: &EventData, outcome: Option<EventChoice>, draws: &EventDraws)
        requires
            times(old(self).base.events@, event.id) < i32::MAX,
            rmj_year(event.id) is Some ==> (rmj_outcome_of(event@, old(self).ramen.rmj_results@)
                matches Some(c) ==> old(self).base.uma.value_fits(&c.value)),
            rmj_year(event.id) is None ==> event_fits(
                old(self).base.uma,
                event.id,
                outcome,
                draws,
            ),
            rmj_year(event.id) is None ==> (event_bond(event@, outcome) matches Some((p, v)) ==> 0
                <= p < old(self).persons@.len() && old(self).persons@[p as int].friendship + v
                >= i32::MIN),
        ensures
            final(self).base.events@ == old(self).base.events@.insert(
                event.id,
                (times(old(self).base.events@, event.id) + 1) as i32,
            ),
            rmj_year(event.id) is Some ==> {
                &&& uma_rmj(
                    old(self).base.uma,
                    rmj_outcome_of(event@, old(self).ramen.rmj_results@),
                    final(self).base.uma,
                )
                &&& final(self).persons@ == old(self).persons@
                &&& final(self).base.deck@ == old(self).base.deck@
                &&& final(self).base.friend == old(self).base.friend
            },
            rmj_year(event.id) is None ==> {
                let b = Bonds { persons: old(self).persons@, deck: old(self).base.deck@ };
                let after = match event_bond(event@, outcome) {
                    Some((p, v)) => bonded(b, p as int, v as int),
                    None => b,
                };
                &&& uma_event(
                    old(self).base.uma,
                    event.id,
                    outcome,
                    draws,
                    final(self).base.uma,
                )
                &&& final(self).persons@ == after.persons
                &&& final(self).base.deck@ == after.deck
                &&& final(self).base.friend == if event.id == EVENT_FRIEND_UNLOCK {
                    FriendState { out_state: FriendOutState::AfterUnlock, ..old(self).base.friend }
                } else {
                    old(self).base.friend
                }
            },
            *final(self) == (RamenGame {
                base: BaseGame {
                    uma: final(self).base.uma,
                    events: final(self).base.events,
                    deck: final(self).base.deck,
                    friend: final(self).base.friend,
                    ..old(self).base
                },
                persons: final(self).persons,
                ..*old(self)
            }),
            event_took_place(*old(self), *final(self), event@, outcome, draws),
    {
        if let Some(year_idx) = rmj_event_year(event.id) {
            self.apply_rmj_event(event, year_idx);
            return;
        }
        let ghost u0 = self.base.uma;
        self.apply_outcome(event.id, outcome);
        let ghost u1 = self.base.uma;
        if let Some(c) = outcome {
            if let Some(p) = event.person_index {
                if c.value.friendship != 0 {
                    self.add_friendship(p as usize, c.value.friendship);
                }
            }
        }
        assert(inherits(event.id) ==> outcome_step(u0, outcome, u1));
        assert(inherits(event.id) ==> u1.five_status_limit == u0.five_status_limit);
        self.apply_special(event.id, draws);
        proof {
            lemma_event_uma(u0, event.id, outcome, draws, u1, self.base.uma);
        }
    }

    /// Applies values and conditions of an outcome, and counts the event.
    fn apply_outcome(&mut self, id: u32, outcome: Option<EventChoice>)
        requires
            outcome matches Some(c) ==> old(self).base.uma.value_fits(&c.value) && old(
                self).base.uma.flags_fit(&c),
            times(old(self).base.events@, id) < i32::MAX,
        ensures
            outcome_step(old(self).base.uma, outcome, final(self).base.uma),
            final(self).base.uma.flags == match outcome {
                Some(c) => old(self).base.uma.flags_after(&c),
                None => old(self).base.uma.flags,
            },
            final(self).base.events@ == old(self).base.events@.insert(
                id,
                (times(old(self).base.events@, id) + 1) as i32,
            ),
            *final(self) == (RamenGame {
                base: BaseGame {
                    uma: final(self).base.uma,
                    events: final(self).base.events,
                    ..old(self).base
                },
                ..*old(self)
            }),
    {
        let ghost u0 = self.base.uma;
        match outcome {
            Some(c) => {
                self.base.uma.add_value(&c.value);
                let ghost m = self.base.uma;
                assert(m.flags == u0.flags);
                self.base.uma.update_flags(&c);
                assert((Uma { flags: u0.flags, ..self.base.uma }) == m);
            },
            None => {},
        }
        self.base.count_event(id);
    }

    /// Applies the effects that some events have besides their outcome.
    fn apply_special(&mut self, id: u32, draws: &EventDraws)
        requires
            inherits(id) ==> old(self).base.uma.value_fits(&inherited(draws)),
            inherits(id) ==> forall|i: int|
                0 <= i < 5 ==> i32::MIN <= #[trigger] old(self).base.uma.five_status_limit@[i]
                    + draws.inherit_limit@[i] <= i32::MAX,
        ensures
            special_step(old(self).base.uma, id, draws, final(self).base.uma),
            final(self).base.friend == if id == EVENT_FRIEND_UNLOCK {
                FriendState { out_state: FriendOutState::AfterUnlock, ..old(self).base.friend }
            } else {
                old(self).base.friend
            },
            *final(self) == (RamenGame {
                base: BaseGame {
                    uma: final(self).base.uma,
                    friend: final(self).base.friend,
                    ..old(self).base
                },
                ..*old(self)
            }),
    {
        if id == 4012 || id == 4013 {
            let value: ActionValue = ActionValue {
                status_pt: draws.inherit_value,
                vital: 0,
                max_vital: 0,
                motivation: 0,
                hint_level: 0,
                friendship: 0,
            };
            let ghost u1 = self.base.uma;
            self.base.uma.add_value(&value);
            let ghost u2 = self.base.uma;
            self.add_limits(&draws.inherit_limit);
            assert((Uma { five_status_limit: u1.five_status_limit, ..self.base.uma }) == u2);
        } else if id == 5007 {
            if draws.qiezhe {
                self.base.uma.flags.qiezhe = true;
            }
        } else if id == EVENT_FRIEND_UNLOCK {
            self.base.friend.out_state = FriendOutState::AfterUnlock;
            self.base.uma.flags.refresh_mind = 1;
        }
    }

    /// Raises the status caps.
    fn add_limits(&mut self, rise: &[i32; 5])
        requires
            forall|i: int|
                0 <= i < 5 ==> i32::MIN <= #[trigger] old(self).base.uma.five_status_limit@[i]
                    + rise@[i] <= i32::MAX,
        ensures
            forall|i: int|
                0 <= i < 5 ==> #[trigger] final(self).base.uma.five_status_limit@[i] == old(self).base.uma.five_status_limit@[i] + rise@[i],
            *final(self) == (RamenGame {
                base: BaseGame {
                    uma: Uma {
                        five_status_limit: final(self).base.uma.five_status_limit,
                        ..old(self).base.uma
                    },
                    ..old(self).base
                },
                ..*old(self)
            }),
    {
        let mut i: usize = 0;
        while i < 5
            invariant
                i <= 5,
                forall|j: int|
                    0 <= j < 5 ==> i32::MIN <= #[trigger] old(self).base.uma.five_status_limit@[j]
                        + rise@[j] <= i32::MAX,
                forall|j: int|
                    0 <= j < i ==> #[trigger] self.base.uma.five_status_limit@[j] == old(self).base.uma.five_status_limit@[j] + rise@[j],
                forall|j: int|
                    i <= j < 5 ==> #[trigger] self.base.uma.five_status_limit@[j] == old(self).base.uma.five_status_limit@[j],
                *self == (RamenGame {
                    base: BaseGame {
                        uma: Uma {
                            five_status_limit: self.base.uma.five_status_limit,
                            ..old(self).base.uma
                        },
                        ..old(self).base
                    },
                    ..*old(self)
                }),
            decreases 5 - i,
        {
            assert(i32::MIN <= old(self).base.uma.five_status_limit@[i as int] + rise@[i as int]
                <= i32::MAX);
            self.base.uma.five_status_limit[i] = self.base.uma.five_status_limit[i] + rise[i];
            i = i + 1;
        }
    }
}

/// On the two turns of inheritance what is inherited arrives: each status value is the sum, held at
/// the cap that it had, the skill points are the sum, and the caps rise after that.
pub proof fn law_inheritance_arrives(u: Uma, id: u32, draws: &EventDraws, after: Uma, i: int)
    requires
        id == 4012 || id == 4013,
        uma_event(u, id, None, draws, after),
        event_fits(u, id, None, draws),
        0 <= i < 5,
    ensures
        u.five_status@[i] + draws.inherit_value@[i] <= u.five_status_limit@[i]
            ==> after.five_status@[i] == u.five_status@[i] + draws.inherit_value@[i],
        u.five_status@[i] + draws.inherit_value@[i] > u.five_status_limit@[i]
            ==> after.five_status@[i] == u.five_status_limit@[i],
        after.skill_pt == u.skill_pt + draws.inherit_value@[5],
        after.five_status_limit@[i] == u.five_status_limit@[i] + draws.inherit_limit@[i],
        after.max_vital == u.max_vital,
        0 <= u.vital <= u.max_vital ==> after.vital == u.vital,
        1 <= u.motivation <= 5 ==> after.motivation == u.motivation,
        after.total_hints == u.total_hints,
        after.flags == u.flags,
        after.win_races == u.win_races,
{
    let mid = choose|mid: Uma|
        mid.flags == after.flags && #[trigger] outcome_step(u, None, mid) && inherit_step(
            mid,
            draws,
            after,
        );
    assert(mid == u);
    let held = Uma { five_status_limit: u.five_status_limit, ..after };
    assert(held.five_status@[i] == u.status_after(&inherited(draws), i));
    assert(u.value_fits(&inherited(draws)));
}

/// An inheritance without values lifts the caps and leaves everything that counts as it was.
pub proof fn law_inheritance_without_values_only_lifts_caps(
    u: Uma,
    id: u32,
    draws: &EventDraws,
    after: Uma,
    i: int,
)
    requires
        id == 4012 || id == 4013,
        uma_event(u, id, None, draws, after),
        event_fits(u, id, None, draws),
        0 <= i < 5,
        draws.inherit_value@ == seq![0i32, 0, 0, 0, 0, 0],
        u.five_status@[i] <= u.five_status_limit@[i],
    ensures
        after.five_status@[i] == u.five_status@[i],
        after.skill_pt == u.skill_pt,
        after.five_status_limit@[i] - u.five_status_limit@[i] == draws.inherit_limit@[i],
{
    law_inheritance_arrives(u, id, draws, after, i);
}

/// The outcome of an ordinary event arrives on the character: values with their limits, conditions
/// gained and lost. Neither caps nor races change.
pub proof fn law_outcome_arrives(
    u: Uma,
    id: u32,
    outcome: EventChoice,
    draws: &EventDraws,
    after: Uma,
    i: int,
)
    requires
        id != 4012 && id != 4013,
        uma_event(u, id, Some(outcome), draws, after),
        event_fits(u, id, Some(outcome), draws),
        0 <= i < 5,
    ensures
        u.five_status@[i] + outcome.value.status_pt@[i] <= u.five_status_limit@[i]
            ==> after.five_status@[i] == u.five_status@[i] + outcome.value.status_pt@[i],
        u.five_status@[i] + outcome.value.status_pt@[i] > u.five_status_limit@[i]
            ==> after.five_status@[i] == u.five_status_limit@[i],
        after.skill_pt == u.skill_pt + outcome.value.status_pt@[5],
        after.total_hints == u.total_hints + outcome.value.hint_level,
        after.max_vital == u.max_vital + outcome.value.max_vital,
        0 <= u.vital + outcome.value.vital <= after.max_vital ==> after.vital == u.vital
            + outcome.value.vital,
        u.vital + outcome.value.vital < 0 ==> after.vital == 0,
        1 <= u.motivation + outcome.value.motivation <= 5 ==> after.motivation == u.motivation
            + outcome.value.motivation,
        after.five_status_limit == u.five_status_limit,
        after.win_races == u.win_races,
        after.career_races == u.career_races,
        outcome.add_flags is None && outcome.remove_flags is None && id != 5007 && id
            != EVENT_FRIEND_UNLOCK ==> after.flags == u.flags,
        outcome.add_flags matches Some(f) && f.ill && outcome.remove_flags is None
            ==> after.flags.ill,
        outcome.remove_flags matches Some(f) && f.ill ==> !after.flags.ill,
{
    let held = Uma { flags: u.flags, ..after };
    assert(u.value_step(&outcome.value, held));
    assert(held.five_status@[i] == u.status_after(&outcome.value, i));
}

/// The discount on skills is learnt at its own event, where chance has it, and never lost there; the
/// event that opens outings with the friend refreshes the mind; without an outcome nothing else
/// about the character changes.
pub proof fn law_special_events_touch_their_condition(
    u: Uma,
    id: u32,
    draws: &EventDraws,
    after: Uma,
)
    requires
        id != 4012 && id != 4013,
        uma_event(u, id, None, draws, after),
    ensures
        id == 5007 ==> after.flags.qiezhe == (u.flags.qiezhe || draws.qiezhe),
        id == 830305103 ==> after.flags.refresh_mind == 1,
        id != 5007 ==> after.flags.qiezhe == u.flags.qiezhe,
        id != 830305103 ==> after.flags.refresh_mind == u.flags.refresh_mind,
        after.flags.ill == u.flags.ill,
        after.five_status == u.five_status,
        after.skill_pt == u.skill_pt,
        after.vital == u.vital,
        after.motivation == u.motivation,
{
}

/// The event that closes a year pays by the year's result: where one outcome is for success and one
/// for failure, a success brings the former and a failure the latter.
pub proof fn law_closing_event_pays_by_result(
    e: EventView,
    results: Seq<bool>,
    y: int,
    won: EventChoice,
    lost: EventChoice,
)
    requires
        (e.id == 401404 && y == 0) || (e.id == 401405 && y == 1) || (e.id == 401406 && y == 2),
        e.choices.len() > 0,
        e.choices[0] =~= seq![won, lost] || e.choices[0] =~= seq![lost, won],
        won.result == 2,
        lost.result == 1,
        results.len() > y,
    ensures
        results[y] ==> rmj_outcome_of(e, results) == Some(won),
        !results[y] ==> rmj_outcome_of(e, results) == Some(lost),
{
    reveal_with_fuel(with_result, 3);
    let c = e.choices[0];
    assert(c.len() == 2);
    assert(c[0] == won || c[0] == lost);
    assert(with_result(c, 2, 0) == Some(won));
    assert(with_result(c, 1, 0) == Some(lost));
}

/// Only the bond of the person whom an event concerns changes, by the outcome's amount and up to a
/// hundred; an outcome without such an amount leaves all bonds alone.
pub proof fn law_event_bonds_its_person(e: EventView, outcome: Option<EventChoice>, p: i32, v: i32)
    ensures
        event_bond(e, outcome) == Some((p, v)) <==> e.person_index == Some(p) && v != 0 && (outcome
            matches Some(c) && c.value.friendship == v),
        outcome is None ==> event_bond(e, outcome) is None,
{
}

/// The event found for a number has that number and stands in the list, before any other with it.
pub proof fn law_event_found_by_number(list: Seq<EventView>, id: u32)
    ensures
        event_by_id(list, id) is None <==> forall|i: int|
            0 <= i < list.len() ==> (#[trigger] list[i]).id != id,
        event_by_id(list, id) matches Some(e) ==> e.id == id && exists|i: int|
            0 <= i < list.len() && #[trigger] list[i] == e && forall|j: int|
                0 <= j < i ==> (#[trigger] list[j]).id != id,
    decreases list.len(),
{
    if list.len() > 0 {
        if list[0].id == id {
            assert(list[0] == event_by_id(list, id)->0);
        } else {
            let rest = list.drop_first();
            law_event_found_by_number(rest, id);
            if let Some(e) = event_by_id(rest, id) {
                let i = choose|i: int|
                    0 <= i < rest.len() && #[trigger] rest[i] == e && forall|j: int|
                        0 <= j < i ==> (#[trigger] rest[j]).id != id;
                assert(list[i + 1] == e);
                assert forall|j: int| 0 <= j < i + 1 implies (#[trigger] list[j]).id != id by {
                    if j > 0 {
                        assert(rest[j - 1] == list[j]);
                    }
                }
            } else {
                assert forall|j: int| 0 <= j < list.len() implies (#[trigger] list[j]).id != id by {
                    if j > 0 {
                        assert(rest[j - 1] == list[j]);
                    }
                }
            }
        }
    }
}

/// With an outcome on the turns of inheritance both arrive, the outcome first: skill points are the sum
/// of all three, and each status value is held at its cap after each of the two.
pub proof fn law_inheritance_comes_on_top(
    u: Uma,
    id: u32,
    outcome: EventChoice,
    draws: &EventDraws,
    after: Uma,
    i: int,
)
    requires
        id == 4012 || id == 4013,
        uma_event(u, id, Some(outcome), draws, after),
        event_fits(u, id, Some(outcome), draws),
        0 <= i < 5,
    ensures
        after.skill_pt == u.skill_pt + outcome.value.status_pt@[5] + draws.inherit_value@[5],
        ({
            let cap = u.five_status_limit@[i];
            let first = if u.five_status@[i] + outcome.value.status_pt@[i] <= cap {
                u.five_status@[i] + outcome.value.status_pt@[i]
            } else {
                cap as int
            };
            after.five_status@[i] == if first + draws.inherit_value@[i] <= cap {
                first + draws.inherit_value@[i]
            } else {
                cap as int
            }
        }),
        after.five_status_limit@[i] == u.five_status_limit@[i] + draws.inherit_limit@[i],
        after.max_vital == u.max_vital + outcome.value.max_vital,
{
    let mid = choose|mid: Uma|
        mid.flags == after.flags && #[trigger] outcome_step(u, Some(outcome), mid) && inherit_step(
            mid,
            draws,
            after,
        );
    let held = Uma { flags: u.flags, ..mid };
    assert(u.value_step(&outcome.value, held));
    assert(held.five_status@[i] == u.status_after(&outcome.value, i));
    let last = Uma { five_status_limit: mid.five_status_limit, ..after };
    assert(last.five_status@[i] == mid.status_after(&inherited(draws), i));
    assert(mid.value_fits(&inherited(draws)));
}

/// An event that has taken place is counted once more. It moves the bond of the person it concerns by
/// the outcome's amount, up to a hundred, and opens the friend's outings where it is the event that
/// does.
pub proof fn law_event_leaves_its_marks(
    before: RamenGame,
    after: RamenGame,
    e: EventView,
    outcome: EventChoice,
    draws: &EventDraws,
    p: i32,
    k: int,
)
    requires
        event_took_place(before, after, e, Some(outcome), draws),
        e.id != 401404 && e.id != 401405 && e.id != 401406,
        times(before.base.events@, e.id) < i32::MAX,
        e.person_index == Some(p),
        0 <= p < before.persons@.len(),
        0 <= k < before.persons@.len(),
        before.persons@[p as int].friendship + outcome.value.friendship >= i32::MIN,
        before.persons@[p as int].friendship <= 100,
    ensures
        after.base.events@.contains_key(e.id),
        times(after.base.events@, e.id) == times(before.base.events@, e.id) + 1,
        before.persons@[p as int].friendship + outcome.value.friendship <= 100
            ==> after.persons@[p as int].friendship == before.persons@[p as int].friendship
            + outcome.value.friendship,
        before.persons@[p as int].friendship + outcome.value.friendship > 100
            ==> after.persons@[p as int].friendship == 100,
        k != p ==> after.persons@[k] == before.persons@[k],
        e.id == 830305103 ==> after.base.friend.out_state == FriendOutState::AfterUnlock,
        e.id != 830305103 ==> after.base.friend == before.base.friend,
        after.base.friend.outings_left == before.base.friend.outings_left,
        e.id != 4012 && e.id != 4013 && before.base.uma.value_fits(&outcome.value)
            ==> after.base.uma.skill_pt == before.base.uma.skill_pt + outcome.value.status_pt@[5],
{
    if e.id != 4012 && e.id != 4013 && before.base.uma.value_fits(&outcome.value) {
        let u = before.base.uma;
        let held = Uma { flags: u.flags, ..after.base.uma };
        assert(u.value_step(&outcome.value, held));
    }
}

/// After an inheritance without an outcome each status value is the sum up to its cap, and the skill
/// points are the sum.
pub proof fn law_inheritance_event(
    before: RamenGame,
    after: RamenGame,
    e: EventView,
    draws: &EventDraws,
    i: int,
)
    requires
        e.id == 4012 || e.id == 4013,
        event_took_place(before, after, e, None, draws),
        event_fits(before.base.uma, e.id, None, draws),
        0 <= i < 5,
    ensures
        ({
            let had = before.base.uma.five_status@[i];
            let cap = before.base.uma.five_status_limit@[i];
            let gain = draws.inherit_value@[i];
            after.base.uma.five_status@[i] == if had + gain <= cap {
                had + gain
            } else {
                cap as int
            }
        }),
        after.base.uma.skill_pt == before.base.uma.skill_pt + draws.inherit_value@[5],
        after.persons@ == before.persons@,
{
    law_inheritance_arrives(before.base.uma, e.id, draws, after.base.uma, i);
}

} // verus!
