use std::collections::HashMap;
use vstd::prelude::*;
use crate::game::support_card::SupportCard;
use crate::game::uma::Uma;
use crate::gamedata::event::EventData;

verus! {

/// How far the outings with the friend card have come.
#[derive(Debug, Clone, Copy, PartialEq, Eq, Structural, Default)]
pub enum FriendOutState {
    /// The friend has not been clicked yet.
    #[default]
    Unclicked,
    /// Outings may be opened on any turn.
    BeforeUnlock,
    /// Outings are open.
    AfterUnlock,
}

/// The friend card in play.
#[derive(Debug, Clone, Copy, PartialEq, Eq, Structural, Default)]
pub struct FriendState {
    /// How far the outings have come.
    pub out_state: FriendOutState,
    /// Outings left.
    pub outings_left: i32,
    /// Position of the friend among the persons.
    pub person_index: i32,
    /// Turns for which the group's enthusiasm has lasted; zero for none.
    pub group_buff_turn: i32,
}

/// What all scenarios keep of a career.
#[derive(Debug, Clone, Default)]
pub struct BaseGame {
    /// The turn, from zero.
    pub turn: i32,
    /// Persons at each training.
    pub distribution: Vec<Vec<i32>>,
    /// Events that wait for the end of the turn.
    pub unresolved_events: Vec<EventData>,
    /// How often each event has taken place.
    pub events: HashMap<u32, i32>,
    /// How often each training has been done.
    pub train_level_count: [i32; 5],
    /// Drop of the weight with which cards stay away.
    pub absent_rate_drop: i32,
    /// The deck.
    pub deck: Vec<SupportCard>,
    /// The character in training.
    pub uma: Uma,
    /// The friend card in play.
    pub friend: FriendState,
}

/// The persons at each training.
pub open spec fn seats(distribution: Seq<Vec<i32>>) -> Seq<Seq<i32>> {
    Seq::new(distribution.len(), |i: int| distribution[i]@)
}

/// How often an event has taken place.
pub open spec fn times(events: Map<u32, i32>, id: u32) -> int {
    if events.contains_key(id) {
        events[id] as int
    } else {
        0
    }
}

/// A summer camp turn.
pub open spec fn camp_turn(turn: int) -> bool {
    36 <= turn <= 39 || 60 <= turn <= 63
}

impl BaseGame {
    /// Whether this is a summer camp turn.
    pub fn is_xiahesu(&self) -> (b: bool)
        ensures
            b == camp_turn(self.turn as int),
    {
        (36 <= self.turn && self.turn <= 39) || (60 <= self.turn && self.turn <= 63)
    }

    /// Whether a race of the career takes place this turn.
    pub fn is_race_turn(&self) -> (b: bool)
        ensures
            b == self.uma.race_turn(self.turn as int),
    {
        self.uma.is_race_turn(self.turn)
    }

    /// Whether a race can be picked freely: on turns thirteen to seventy-one.
    pub fn can_self_race(&self) -> (b: bool)
        ensures
            b == (13 <= self.turn <= 71),
    {
        13 <= self.turn && self.turn <= 71
    }

    /// Whether an outing with the friend can be picked.
    pub fn can_friend_outing(&self) -> (b: bool)
        ensures
            b == (self.friend.out_state == FriendOutState::AfterUnlock && self.friend.outings_left
                > 0),
    {
        self.friend.out_state == FriendOutState::AfterUnlock && self.friend.outings_left > 0
    }

    /// Counts an event.
    pub fn count_event(&mut self, id: u32)
        requires
            times(old(self).events@, id) < i32::MAX,
        ensures
            final(self).events@ == old(self).events@.insert(
                id,
                (times(old(self).events@, id) + 1) as i32,
            ),
            *final(self) == (BaseGame { events: final(self).events, ..*old(self) }),
    {
        broadcast use vstd::std_specs::hash::group_hash_axioms;

        let n: i32 = match self.events.get(&id) {
            Some(n) => *n,
            None => 0,
        };
        self.events.insert(id, n + 1);
    }
}

/// The summer camps take turns thirty-six to thirty-nine and sixty to sixty-three.
pub proof fn law_summer_camps(turn: int)
    ensures
        camp_turn(turn) <==> turn == 36 || turn == 37 || turn == 38 || turn == 39 || turn == 60 || turn
            == 61 || turn == 62 || turn == 63,
{
}

/// An event that has not taken place counts zero times; counting it once makes it one more, and leaves
/// the others alone.
pub proof fn law_events_are_counted(events: Map<u32, i32>, id: u32, other: u32)
    requires
        times(events, id) < i32::MAX,
    ensures
        times(Map::empty(), id) == 0,
        ({
            let after = events.insert(id, (times(events, id) + 1) as i32);
            &&& times(after, id) == times(events, id) + 1
            &&& other != id ==> times(after, other) == times(events, other)
        }),
{
}

} // verus!
