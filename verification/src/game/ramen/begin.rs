use rand::rngs::StdRng;
use vstd::prelude::*;
use super::distribution::known;
use super::persons::{has_kind, persons_on};
use super::rules::{get_turn_special_feeling, ints, turn_special};
use super::story::{event_by_id, find_scenario_event};
use super::{super_turn, FeelingType, RamenGame, RamenState};
use crate::error::SimError;
use crate::game::base::person::PersonType;
use crate::game::base::state::{BaseGame, FriendOutState, FriendState};
use crate::game::support_card::SupportCard;
use crate::game::uma::{Uma, UmaFlags};
use crate::gamedata::constants::GameConstants;
use crate::gamedata::event::{
    event_views,
    find_named,
    list_turn_events,
    named,
    turn_events,
    ActionValue,
    EventCollection,
    EventData,
    EventRates,
    EventView,
    NamedEvent,
};
use crate::gamedata::ramen::RamenScenarioData;
use crate::lists::holds;
use crate::rng::draw_ratio;

verus! {

/// A turn on which the stocks are set anew.
pub open spec fn fresh_stock_turn(turn: int) -> bool {
    turn == 2 || turn == 24 || turn == 48
}

/// The first friend or group of a deck.
pub open spec fn friend_card(deck: Seq<SupportCard>, from: int) -> Option<SupportCard>
    decreases deck.len() - from,
{
    if from >= deck.len() {
        None
    } else if deck[from].card_type >= 5 {
        Some(deck[from])
    } else {
        friend_card(deck, from + 1)
    }
}

/// Feeling points of each kind that a year starts with: two with the scenario's own friend, one
/// with one of the two earlier friends, none otherwise.
pub open spec fn initial_stock(deck: Seq<SupportCard>) -> int {
    match friend_card(deck, 0) {
        Some(card) => if card.card_id == 30305 {
            2
        } else if card.data.chara_id == 9001 || card.data.chara_id == 9008 {
            1
        } else {
            0
        },
        None => 0,
    }
}

/// Hidden flavours after so many more, four at most.
pub open spec fn special_after(special: int, gain: int) -> int {
    if special + gain < 4 {
        special + gain
    } else {
        4
    }
}

/// So many feeling points of each kind, in turn.
pub open spec fn initial_queue(n: int) -> Seq<FeelingType>
    decreases n,
{
    if n <= 0 {
        Seq::empty()
    } else {
        initial_queue(n - 1) + seq![FeelingType::A, FeelingType::B, FeelingType::C]
    }
}

/// The stocks have been set anew.
pub open spec fn stocks_set(before: RamenState, deck: Seq<SupportCard>, after: RamenState) -> bool {
    let n = initial_stock(deck);
    &&& ints(after.feeling_stock) == seq![n, n, n]
    &&& after.special_feeling == special_after(
        before.special_feeling as int,
        if n > 0 {
            n
        } else {
            1
        },
    )
    &&& after.feeling_queue@ == initial_queue(n)
    &&& after == (RamenState {
        feeling_stock: after.feeling_stock,
        special_feeling: after.special_feeling,
        feeling_queue: after.feeling_queue,
        ..before
    })
}

/// Stocks set anew agree with their queue: it holds as many points of each kind as are in stock.
pub proof fn law_fresh_stocks_consistent(before: RamenState, deck: Seq<SupportCard>, after: RamenState)
    requires
        stocks_set(before, deck, after),
    ensures
        after.kitchen().consistent(),
        0 <= after.special_feeling || before.special_feeling < 0,
        after.special_feeling <= 4,
{
    reveal_with_fuel(initial_queue, 3);
    reveal_with_fuel(super::rules::count_of, 7);
    let n = initial_stock(deck);
    assert(n == 0 || n == 1 || n == 2);
    let abc = seq![FeelingType::A, FeelingType::B, FeelingType::C];
    if n == 1 {
        assert(initial_queue(1) =~= abc);
    } else if n == 2 {
        assert(initial_queue(2) =~= seq![
            FeelingType::A,
            FeelingType::B,
            FeelingType::C,
            FeelingType::A,
            FeelingType::B,
            FeelingType::C,
        ]);
    } else {
        assert(initial_queue(0) =~= Seq::<FeelingType>::empty());
    }
}

/// Vitality and motivation alone.
pub open spec fn spirits(v: ActionValue, vital: int, motivation: int) -> bool {
    &&& v.status_pt@ == seq![0i32, 0, 0, 0, 0, 0]
    &&& v.vital == vital
    &&& v.motivation == motivation
    &&& v.max_vital == 0
    &&& v.hint_level == 0
    &&& v.friendship == 0
}

/// Vitality and motivation have been applied.
pub open spec fn cheered(u: Uma, vital: int, motivation: int, after: Uma) -> bool {
    exists|v: ActionValue| #[trigger] spirits(v, vital, motivation) && u.value_step(&v, after)
}

/// Vitality and motivation stay within the range of machine integers when they are applied.
pub open spec fn cheer_fits(u: Uma, vital: int, motivation: int) -> bool {
    &&& i32::MIN <= u.vital + vital <= i32::MAX
    &&& i32::MIN <= u.motivation + motivation <= i32::MAX
}

/// Applies vitality and motivation.
fn cheer(u: &mut Uma, vital: i32, motivation: i32)
    requires
        cheer_fits(*old(u), vital as int, motivation as int),
    ensures
        cheered(*old(u), vital as int, motivation as int, *final(u)),
{
    let v: ActionValue = ActionValue {
        status_pt: [0, 0, 0, 0, 0, 0],
        vital,
        max_vital: 0,
        motivation,
        hint_level: 0,
        friendship: 0,
    };
    assert(v.status_pt@ =~= seq![0i32, 0, 0, 0, 0, 0]);
    assert(spirits(v, vital as int, motivation as int));
    u.add_value(&v);
}

/// The refreshed mind has lasted another turn, or it has ended: five points of vitality either way.
/// Without it nothing happens.
pub open spec fn refreshed(u: Uma, ends: bool, after: Uma) -> bool {
    if u.flags.refresh_mind > 0 {
        &&& cheered(u, 5, 0, (Uma { flags: u.flags, ..after }))
        &&& after.flags == (UmaFlags {
            refresh_mind: if ends {
                0
            } else {
                (u.flags.refresh_mind + 1) as i32
            },
            ..u.flags
        })
    } else {
        after == u
    }
}

/// The entry of the table of end chances that applies.
pub open spec fn end_rate(rates: &EventRates, lasted: int) -> u32 {
    rates.refresh_end@[if lasted < 6 {
        lasted
    } else {
        6
    }]
}

/// The end chances are chances.
pub open spec fn rates_ok(rates: &EventRates) -> bool {
    &&& forall|i: int| 0 <= i < 7 ==> #[trigger] rates.refresh_end@[i] <= 10_000
    &&& rates.friend_unlock_low <= 10_000
    &&& rates.friend_unlock_high <= 10_000
}

/// Outings with the friend may open on this turn.
pub open spec fn unlock_possible(game: &RamenGame, cons: &GameConstants) -> bool {
    &&& !cons.no_event_turns@.contains(game.base.turn)
    &&& game.base.friend.out_state == FriendOutState::BeforeUnlock
}

/// The chance that outings with the friend open, by the bond.
pub open spec fn unlock_rate(game: &RamenGame, rates: &EventRates) -> u32 {
    if game.persons@[game.base.friend.person_index as int].friendship < 60 {
        rates.friend_unlock_low
    } else {
        rates.friend_unlock_high
    }
}

/// What chance brings on a turn without events of the story.
#[derive(Debug)]
pub struct RandomEvents {
    /// Which kind of event comes: of a card, of the character, a loss of motivation, or none.
    pub roll: usize,
    /// The event of the card that was drawn.
    pub card_event: Option<EventData>,
    /// The event of the character that was drawn.
    pub uma_event: Option<EventData>,
}

/// An event, or nothing.
pub open spec fn one_event(e: Option<EventData>) -> Seq<EventView> {
    match e {
        Some(e) => seq![e@],
        None => Seq::empty(),
    }
}

/// The mathematical value of an event, if there is one.
pub open spec fn event_view(e: Option<EventData>) -> Option<EventView> {
    match e {
        Some(e) => Some(e@),
        None => None,
    }
}

/// An event by name, or nothing.
pub open spec fn named_event(list: Seq<NamedEvent>, key: Seq<char>) -> Seq<EventView> {
    match named(list, key) {
        Some(e) => seq![e],
        None => Seq::empty(),
    }
}

/// A random event is drawn on this turn: no story has an event for it, and it is not one of the
/// turns without events.
pub open spec fn random_due(
    game: &RamenGame,
    data: &RamenScenarioData,
    cons: &GameConstants,
    events: &EventCollection,
) -> bool {
    &&& turn_events(event_views(data.scenario_events@), game.base.turn).len() == 0
    &&& turn_events(event_views(events.story_events@), game.base.turn).len() == 0
    &&& !cons.no_event_turns@.contains(game.base.turn)
}

/// The events of a turn: those of the scenario's story, otherwise those of the shared story,
/// otherwise, unless the turn has none, a random one.
pub open spec fn generated(
    game: &RamenGame,
    data: &RamenScenarioData,
    cons: &GameConstants,
    events: &EventCollection,
    random: &RandomEvents,
) -> Seq<EventView> {
    let turn = game.base.turn;
    let own = turn_events(event_views(data.scenario_events@), turn);
    let shared = turn_events(event_views(events.story_events@), turn);
    if own.len() > 0 {
        own
    } else if shared.len() > 0 {
        shared
    } else if cons.no_event_turns@.contains(turn) {
        Seq::empty()
    } else if random.roll == 0 {
        if has_kind(game.persons@, PersonType::Card) {
            one_event(random.card_event)
        } else {
            Seq::empty()
        }
    } else if random.roll == 1 {
        one_event(random.uma_event)
    } else if random.roll == 2 && turn >= 12 {
        named_event(events.system_events@, "drop_motivation"@)
    } else {
        Seq::empty()
    }
}

/// Events that must take place at the beginning of a turn.
pub open spec fn due_at_begin(game: &RamenGame, data: &RamenScenarioData) -> Seq<EventView> {
    if game.base.friend.out_state == FriendOutState::AfterUnlock && game.base.turn == 24 {
        named_event(data.friend_events@, "newyear"@)
    } else {
        Seq::empty()
    }
}

/// Events that must take place at the end of a turn: the lottery of the second new year, and on the
/// last turn the farewell of the friend and the two endings.
pub open spec fn due_at_end(game: &RamenGame, data: &RamenScenarioData, events: &EventCollection) -> Seq<
    EventView,
> {
    if game.base.turn == 48 {
        named_event(events.system_events@, "ticket"@)
    } else if game.base.turn == 77 {
        (if game.base.friend.out_state == FriendOutState::AfterUnlock {
            named_event(data.friend_events@, "end"@)
        } else {
            Seq::empty()
        }) + named_event(events.system_events@, "ending"@) + (match event_by_id(
            event_views(data.scenario_events@),
            401407,
        ) {
            Some(e) => seq![e],
            None => Seq::empty(),
        })
    } else {
        Seq::empty()
    }
}

/// The tables hold the named events that must take place on this turn, but for the lottery.
pub open spec fn due_events_known(
    game: &RamenGame,
    data: &RamenScenarioData,
    events: &EventCollection,
) -> bool {
    let unlocked = game.base.friend.out_state == FriendOutState::AfterUnlock;
    &&& game.base.turn == 24 && unlocked ==> named(data.friend_events@, "newyear"@) is Some
    &&& game.base.turn == 77 && unlocked ==> named(data.friend_events@, "end"@) is Some
    &&& game.base.turn == 77 ==> named(events.system_events@, "ending"@) is Some
}

/// The tables hold the loss of motivation where chance brings it.
pub open spec fn random_events_known(
    game: &RamenGame,
    data: &RamenScenarioData,
    cons: &GameConstants,
    events: &EventCollection,
    random: &RandomEvents,
) -> bool {
    random_due(game, data, cons, events) && random.roll == 2 && game.base.turn >= 12 ==> named(
        events.system_events@,
        "drop_motivation"@,
    ) is Some
}

/// The tables hold the event that opens outings with the friend where it may come.
pub open spec fn unlock_known(
    game: &RamenGame,
    data: &RamenScenarioData,
    cons: &GameConstants,
    rates: &EventRates,
) -> bool {
    unlock_possible(game, cons) && unlock_rate(game, rates) > 0 ==> named(
        data.friend_events@,
        "out"@,
    ) is Some
}

proof fn lemma_event_push(v: Seq<EventData>, e: EventData)
    ensures
        event_views(v.push(e)) == event_views(v).push(e@),
{
    assert(event_views(v.push(e)) =~= event_views(v).push(e@));
}

/// Adds an event to a list, or nothing.
fn push_event(list: &mut Vec<EventData>, e: Option<EventData>)
    ensures
        event_views(final(list)@) == event_views(old(list)@) + one_event(e),
{
    let ghost before = list@;
    match e {
        Some(e) => {
            list.push(e);
            proof {
                lemma_event_push(before, e);
            }
            assert(event_views(list@) =~= event_views(before) + seq![e@]);
        },
        None => {
            assert(event_views(list@) =~= event_views(before) + Seq::<EventView>::empty());
        },
    }
}

/// The list of one event, or of none.
fn list_of(e: Option<EventData>) -> (list: Vec<EventData>)
    ensures
        event_views(list@) == one_event(e),
{
    let mut list: Vec<EventData> = Vec::new();
    assert(event_views(list@) =~= Seq::<EventView>::empty());
    push_event(&mut list, e);
    assert(event_views(list@) =~= one_event(e));
    list
}

/// Copies an event, if there is one.
fn copy_event(e: &Option<EventData>) -> (c: Option<EventData>)
    ensures
        one_event(c) == one_event(*e),
{
    match e {
        Some(e) => Some(e.clone()),
        None => None,
    }
}

/// What chance decides at the beginning of a turn.
pub struct BeginDraws {
    /// The refreshed mind ends.
    pub ends: bool,
    /// Outings with the friend open.
    pub unlocks: bool,
}

/// What chance may decide: only what is possible at all, nothing that has no chance, and surely
/// what is certain.
pub open spec fn draws_fit(
    game: &RamenGame,
    cons: &GameConstants,
    rates: &EventRates,
    drawn: BeginDraws,
) -> bool {
    let lasted = game.base.uma.flags.refresh_mind as int;
    &&& drawn.ends ==> lasted > 0 && end_rate(rates, lasted) > 0
    &&& lasted > 0 && end_rate(rates, lasted) == 10_000 ==> drawn.ends
    &&& drawn.unlocks ==> unlock_possible(game, cons) && unlock_rate(game, rates) > 0
    &&& unlock_possible(game, cons) && unlock_rate(game, rates) == 10_000 ==> drawn.unlocks
}

/// The hidden flavours once those of the turn have been added.
pub open spec fn special_begun(game: &RamenGame) -> int {
    let turn = game.base.turn as int;
    if fresh_stock_turn(turn) || turn_special(turn) == 0 {
        game.ramen.special_feeling as int
    } else {
        special_after(game.ramen.special_feeling as int, turn_special(turn))
    }
}

/// What the beginning of a turn has done before its events are chosen, given what chance decided.
pub open spec fn drawn_at_begin(
    before: RamenGame,
    after: RamenGame,
    cons: &GameConstants,
    rates: &EventRates,
    drawn: BeginDraws,
) -> bool {
    &&& draws_fit(&before, cons, rates, drawn)
    &&& after.ramen.special_feeling == special_begun(&before)
    &&& refreshed(before.base.uma, drawn.ends, after.base.uma)
    &&& after == (RamenGame {
        base: BaseGame { uma: after.base.uma, ..before.base },
        ramen: RamenState { special_feeling: after.ramen.special_feeling, ..before.ramen },
        ..before
    })
}

/// The events that are played at the beginning of a turn: the one that opens outings with the
/// friend takes the place of all others but those that must take place.
pub open spec fn begin_events(
    game: &RamenGame,
    data: &RamenScenarioData,
    cons: &GameConstants,
    events: &EventCollection,
    unlock: Option<EventView>,
    random: &RandomEvents,
) -> Seq<EventView> {
    (match unlock {
        Some(e) => seq![e],
        None => generated(game, data, cons, events, random),
    }) + due_at_begin(game, data)
}

/// The event that opens outings with the friend, where chance decided so.
pub open spec fn unlock_event(data: &RamenScenarioData, drawn: BeginDraws) -> Option<EventView> {
    if drawn.unlocks {
        named(data.friend_events@, "out"@)
    } else {
        None
    }
}

/// What the beginning of a turn has done before its events are played, given what chance decided.
pub open spec fn begun(
    before: RamenGame,
    after: RamenGame,
    data: &RamenScenarioData,
    cons: &GameConstants,
    events: &EventCollection,
    rates: &EventRates,
    drawn: BeginDraws,
) -> bool {
    &&& draws_fit(&before, cons, rates, drawn)
    &&& after.ramen.special_feeling == special_begun(&before)
    &&& refreshed(before.base.uma, drawn.ends, after.base.uma)
    &&& event_views(after.base.unresolved_events@) == event_views(
        before.base.unresolved_events@,
    ) + due_at_end(&before, data, events)
    &&& after == (RamenGame {
        base: BaseGame {
            uma: after.base.uma,
            unresolved_events: after.base.unresolved_events,
            ..before.base
        },
        ramen: RamenState { special_feeling: after.ramen.special_feeling, ..before.ramen },
        ..before
    })
}

/// A turn has begun up to the pick of regions: a decision in progress is dropped, whoever joins has
/// joined, and a new year has its stocks.
pub open spec fn opened(before: RamenGame, after: RamenGame) -> bool {
    let cleared = RamenState {
        pending_ramen: None,
        pending_special_targets: after.ramen.pending_special_targets,
        combined_decision: false,
        ..before.ramen
    };
    &&& after.persons@ == persons_on(&before)
    &&& after.ramen.pending_special_targets@ == seq![0i32, 0, 0]
    &&& if fresh_stock_turn(before.base.turn as int) {
        stocks_set(cleared, before.base.deck@, after.ramen)
    } else {
        after.ramen == cleared
    }
}

impl RamenGame {
    /// Sets the stocks anew. How many points a year starts with depends on the friend in the deck.
    pub fn init_feeling_stocks(&mut self)
        requires
            old(self).ramen.special_feeling <= i32::MAX - 2,
        ensures
            stocks_set(old(self).ramen, old(self).base.deck@, final(self).ramen),
            *final(self) == (RamenGame { ramen: final(self).ramen, ..*old(self) }),
    {
        let ghost deck = self.base.deck@;
        let mut i: usize = 0;
        while i < self.base.deck.len() && self.base.deck[i].card_type < 5
            invariant
                i <= self.base.deck@.len(),
                deck == self.base.deck@,
                friend_card(deck, 0) == friend_card(deck, i as int),
            decreases self.base.deck@.len() - i,
        {
            i = i + 1;
        }
        let init: i32 = if i < self.base.deck.len() {
            let card: &SupportCard = &self.base.deck[i];
            if card.card_id == 30305 {
                2
            } else if card.data.chara_id == 9001 || card.data.chara_id == 9008 {
                1
            } else {
                0
            }
        } else {
            0
        };
        self.ramen.feeling_stock = [init, init, init];
        let gain: i32 = if init > 0 {
            init
        } else {
            1
        };
        self.ramen.special_feeling = (self.ramen.special_feeling + gain).min(4);
        let mut queue: Vec<FeelingType> = Vec::new();
        let mut k: i32 = 0;
        while k < init
            invariant
                0 <= k <= init || (init == 0 && k == 0),
                queue@ == initial_queue(k as int),
            decreases init - k,
        {
            let ghost before = queue@;
            queue.push(FeelingType::A);
            queue.push(FeelingType::B);
            queue.push(FeelingType::C);
            assert(queue@ =~= before + seq![FeelingType::A, FeelingType::B, FeelingType::C]);
            k = k + 1;
        }
        self.ramen.feeling_queue = queue;
        assert(ints(self.ramen.feeling_stock) =~= seq![init as int, init as int, init as int]);
    }

    /// The first half of a turn's beginning: drops a decision in progress, adds those who come
    /// later, and sets the stocks anew on the first turn of a year.
    pub fn run_begin_prefix(&mut self)
        requires
            old(self).persons@.len() + old(self).base.deck@.len() + 5 <= i32::MAX,
            old(self).ramen.special_feeling <= i32::MAX - 2,
        ensures
            final(self).persons@ == persons_on(old(self)),
            final(self).ramen.pending_special_targets@ == seq![0i32, 0, 0],
            ({
                let cleared = RamenState {
                    pending_ramen: None,
                    pending_special_targets: final(self).ramen.pending_special_targets,
                    combined_decision: false,
                    ..old(self).ramen
                };
                if fresh_stock_turn(old(self).base.turn as int) {
                    stocks_set(cleared, old(self).base.deck@, final(self).ramen)
                } else {
                    final(self).ramen == cleared
                }
            }),
            *final(self) == (RamenGame {
                persons: final(self).persons,
                ramen: final(self).ramen,
                base: BaseGame {
                    friend: FriendState {
                        person_index: final(self).base.friend.person_index,
                        ..old(self).base.friend
                    },
                    ..old(self).base
                },
                ..*old(self)
            }),
            final(self).base.friend.person_index == if old(self).base.turn == 2 && !has_kind(
                old(self).persons@,
                PersonType::ScenarioCard,
            ) {
                old(self).persons@.len() as int
            } else {
                old(self).base.friend.person_index as int
            },
            opened(*old(self), *final(self)),
    {
        self.ramen.clear_pending();
        self.manage_persons_on_turn_start();
        if self.base.turn == 2 || self.base.turn == 24 || self.base.turn == 48 {
            self.init_feeling_stocks();
        }
    }

    /// Lets the refreshed mind restore vitality, and ends it if that was drawn.
    pub fn refresh(&mut self, ends: bool)
        requires
            old(self).base.uma.flags.refresh_mind < i32::MAX,
            old(self).base.uma.flags.refresh_mind > 0 ==> cheer_fits(old(self).base.uma, 5, 0),
        ensures
            refreshed(old(self).base.uma, ends, final(self).base.uma),
            *final(self) == (RamenGame {
                base: BaseGame { uma: final(self).base.uma, ..old(self).base },
                ..*old(self)
            }),
    {
        if self.base.uma.flags.refresh_mind > 0 {
            let ghost u0 = self.base.uma;
            cheer(&mut self.base.uma, 5, 0);
            let ghost u1 = self.base.uma;
            assert(u1.flags == u0.flags);
            self.base.uma.flags.refresh_mind = if ends {
                0
            } else {
                self.base.uma.flags.refresh_mind + 1
            };
            assert((Uma { flags: u0.flags, ..self.base.uma }) == u1);
        }
    }

    /// Draws whether the refreshed mind ends this turn, and applies it.
    pub fn update_refresh_mind(&mut self, rates: &EventRates, rng: &mut StdRng) -> (ends: bool)
        requires
            rates_ok(rates),
            old(self).base.uma.flags.refresh_mind < i32::MAX,
            old(self).base.uma.flags.refresh_mind > 0 ==> cheer_fits(old(self).base.uma, 5, 0),
        ensures
            refreshed(old(self).base.uma, ends, final(self).base.uma),
            ends ==> old(self).base.uma.flags.refresh_mind > 0,
            old(self).base.uma.flags.refresh_mind > 0 ==> {
                let rate = end_rate(rates, old(self).base.uma.flags.refresh_mind as int);
                &&& ends ==> rate > 0
                &&& rate == 10_000 ==> ends
            },
            *final(self) == (RamenGame {
                base: BaseGame { uma: final(self).base.uma, ..old(self).base },
                ..*old(self)
            }),
    {
        let t: i32 = self.base.uma.flags.refresh_mind;
        if t <= 0 {
            return false;
        }
        let i: usize = if t < 6 {
            t as usize
        } else {
            6
        };
        let rate: u32 = rates.refresh_end[i];
        assert(rates.refresh_end@[i as int] <= 10_000);
        let ends: bool = draw_ratio(rate, 10_000, rng);
        self.refresh(ends);
        ends
    }

    /// Draws whether outings with the friend open this turn. The chance depends on the bond.
    pub fn try_friend_unlock(
        &self,
        data: &RamenScenarioData,
        cons: &GameConstants,
        rates: &EventRates,
        rng: &mut StdRng,
    ) -> (r: Option<EventData>)
        requires
            rates_ok(rates),
            unlock_possible(self, cons) ==> known(self.persons@, self.base.friend.person_index),
            unlock_known(self, data, cons, rates),
        ensures
            match r {
                Some(e) => unlock_possible(self, cons) && named(data.friend_events@, "out"@) == Some(
                    e@,
                ) && unlock_rate(self, rates) > 0,
                None => unlock_possible(self, cons) ==> unlock_rate(self, rates) < 10_000,
            },
    {
        if holds(&cons.no_event_turns, self.base.turn) || self.base.friend.out_state
            != FriendOutState::BeforeUnlock {
            return None;
        }
        let rate: u32 = if self.persons[self.base.friend.person_index as usize].friendship < 60 {
            rates.friend_unlock_low
        } else {
            rates.friend_unlock_high
        };
        if draw_ratio(rate, 10_000, rng) {
            find_named(&data.friend_events, "out")
        } else {
            None
        }
    }

    /// Whether a random event is drawn on this turn.
    pub fn draws_random_event(
        &self,
        data: &RamenScenarioData,
        cons: &GameConstants,
        events: &EventCollection,
    ) -> (b: bool)
        ensures
            b == random_due(self, data, cons, events),
    {
        let own: Vec<EventData> = list_turn_events(&data.scenario_events, self.base.turn);
        let shared: Vec<EventData> = list_turn_events(&events.story_events, self.base.turn);
        assert(event_views(own@).len() == own@.len());
        assert(event_views(shared@).len() == shared@.len());
        own.len() == 0 && shared.len() == 0 && !holds(&cons.no_event_turns, self.base.turn)
    }

    /// The events of a turn, given what chance brings.
    pub fn generate_events(
        &self,
        data: &RamenScenarioData,
        cons: &GameConstants,
        events: &EventCollection,
        random: &RandomEvents,
    ) -> (list: Vec<EventData>)
        requires
            random_events_known(self, data, cons, events, random),
        ensures
            event_views(list@) == generated(self, data, cons, events, random),
    {
        let own: Vec<EventData> = list_turn_events(&data.scenario_events, self.base.turn);
        assert(event_views(own@).len() == own@.len());
        if own.len() > 0 {
            return own;
        }
        let shared: Vec<EventData> = list_turn_events(&events.story_events, self.base.turn);
        assert(event_views(shared@).len() == shared@.len());
        if shared.len() > 0 {
            return shared;
        }
        let none: Vec<EventData> = Vec::new();
        assert(event_views(none@) =~= Seq::<EventView>::empty());
        if holds(&cons.no_event_turns, self.base.turn) {
            return none;
        }
        match random.roll {
            0 => if self.any_of_kind(PersonType::Card) {
                list_of(copy_event(&random.card_event))
            } else {
                none
            },
            1 => list_of(copy_event(&random.uma_event)),
            2 => if self.base.turn >= 12 {
                list_of(find_named(&events.system_events, "drop_motivation"))
            } else {
                none
            },
            _ => none,
        }
    }

    /// Adds the events that must take place: those of the beginning of the turn to the list, those
    /// of its end to the ones that wait.
    ///
    /// Refused, with nothing added, where the lottery of the second new year is due but missing.
    pub fn add_mandatory_events(
        &mut self,
        data: &RamenScenarioData,
        events: &EventCollection,
        list: &mut Vec<EventData>,
    ) -> (r: Result<(), SimError>)
        requires
            due_events_known(old(self), data, events),
        ensures
            match r {
                Ok(_) => {
                    &&& event_views(final(list)@) == event_views(old(list)@) + due_at_begin(
                        old(self),
                        data,
                    )
                    &&& event_views(final(self).base.unresolved_events@) == event_views(
                        old(self).base.unresolved_events@,
                    ) + due_at_end(old(self), data, events)
                },
                Err(e) => {
                    &&& e == SimError::MissingEvent
                    &&& *final(self) == *old(self)
                    &&& *final(list) == *old(list)
                },
            },
            r is Err <==> old(self).base.turn == 48 && named(events.system_events@, "ticket"@) is None,
            *final(self) == (RamenGame {
                base: BaseGame {
                    unresolved_events: final(self).base.unresolved_events,
                    ..old(self).base
                },
                ..*old(self)
            }),
    {
        let unlocked: bool = self.base.friend.out_state == FriendOutState::AfterUnlock;
        let ghost before = event_views(self.base.unresolved_events@);
        let ghost before_list = event_views(list@);
        if self.base.turn == 24 {
            if unlocked {
                push_event(list, find_named(&data.friend_events, "newyear"));
            }
        } else if self.base.turn == 48 {
            let ticket: Option<EventData> = find_named(&events.system_events, "ticket");
            if ticket.is_none() {
                return Err(SimError::MissingEvent);
            }
            push_event(&mut self.base.unresolved_events, ticket);
        } else if self.base.turn == 77 {
            if unlocked {
                push_event(
                    &mut self.base.unresolved_events,
                    find_named(&data.friend_events, "end"),
                );
            }
            push_event(
                &mut self.base.unresolved_events,
                find_named(&events.system_events, "ending"),
            );
            push_event(&mut self.base.unresolved_events, find_scenario_event(data, 401407));
        }
        assert(event_views(list@) =~= before_list + due_at_begin(old(self), data));
        assert(event_views(self.base.unresolved_events@) =~= before + due_at_end(
            old(self),
            data,
            events,
        ));
        Ok(())
    }

    /// The second half of a turn's beginning, up to the choice of its events: hidden flavours, the
    /// refreshed mind, and whether outings with the friend open, which is the event returned.
    pub fn run_begin_draws(
        &mut self,
        data: &RamenScenarioData,
        cons: &GameConstants,
        rates: &EventRates,
        rng: &mut StdRng,
    ) -> (unlock: Option<EventData>)
        requires
            unlock_known(old(self), data, cons, rates),
            rates_ok(rates),
            unlock_possible(old(self), cons) ==> known(
                old(self).persons@,
                old(self).base.friend.person_index,
            ),
            old(self).ramen.special_feeling <= i32::MAX - 2,
            old(self).base.uma.flags.refresh_mind < i32::MAX,
            old(self).base.uma.flags.refresh_mind > 0 ==> cheer_fits(old(self).base.uma, 5, 0),
        ensures
            exists|drawn: BeginDraws| #[trigger]
                drawn_at_begin(*old(self), *final(self), cons, rates, drawn) && event_view(unlock)
                    == unlock_event(data, drawn),
    {
        if !(self.base.turn == 2 || self.base.turn == 24 || self.base.turn == 48) {
            let special: i32 = get_turn_special_feeling(self.base.turn);
            if special > 0 {
                self.ramen.special_feeling = (self.ramen.special_feeling + special).min(4);
            }
        }
        let ends: bool = self.update_refresh_mind(rates, rng);
        let unlock: Option<EventData> = self.try_friend_unlock(data, cons, rates, rng);
        let unlocks: bool = unlock.is_some();
        assert(drawn_at_begin(*old(self), *self, cons, rates, (BeginDraws { ends, unlocks })));
        unlock
    }

    /// The events that are played at the beginning of a turn, given the one that opens outings with
    /// the friend, if it comes, and what chance brings. Those of the turn's end are left waiting.
    ///
    /// Refused, with nothing changed, where the lottery of the second new year is due but missing.
    pub fn choose_begin_events(
        &mut self,
        data: &RamenScenarioData,
        cons: &GameConstants,
        events: &EventCollection,
        unlock: Option<EventData>,
        random: &RandomEvents,
    ) -> (r: Result<Vec<EventData>, SimError>)
        requires
            due_events_known(old(self), data, events),
            unlock is None ==> random_events_known(old(self), data, cons, events, random),
        ensures
            match r {
                Ok(list) => {
                    &&& event_views(list@) == begin_events(
                        old(self),
                        data,
                        cons,
                        events,
                        event_view(unlock),
                        random,
                    )
                    &&& event_views(final(self).base.unresolved_events@) == event_views(
                        old(self).base.unresolved_events@,
                    ) + due_at_end(old(self), data, events)
                },
                Err(e) => e == SimError::MissingEvent && *final(self) == *old(self),
            },
            r is Err <==> old(self).base.turn == 48 && named(events.system_events@, "ticket"@) is None,
            *final(self) == (RamenGame {
                base: BaseGame {
                    unresolved_events: final(self).base.unresolved_events,
                    ..old(self).base
                },
                ..*old(self)
            }),
    {
        let mut list: Vec<EventData> = if unlock.is_some() {
            list_of(unlock)
        } else {
            self.generate_events(data, cons, events, random)
        };
        match self.add_mandatory_events(data, events, &mut list) {
            Ok(_) => Ok(list),
            Err(e) => Err(e),
        }
    }

    /// The second half of a turn's beginning, up to its events: hidden flavours, the refreshed
    /// mind, and which events take place. The events are then played one after the other.
    ///
    /// Refused where the lottery of the second new year is due but missing. What came before the
    /// choice of events has then been done, and no event has been added.
    pub fn run_begin_suffix(
        &mut self,
        data: &RamenScenarioData,
        cons: &GameConstants,
        events: &EventCollection,
        rates: &EventRates,
        random: &RandomEvents,
        rng: &mut StdRng,
    ) -> (r: Result<Vec<EventData>, SimError>)
        requires
            due_events_known(old(self), data, events),
            random_events_known(old(self), data, cons, events, random),
            unlock_known(old(self), data, cons, rates),
            rates_ok(rates),
            unlock_possible(old(self), cons) ==> known(
                old(self).persons@,
                old(self).base.friend.person_index,
            ),
            old(self).ramen.special_feeling <= i32::MAX - 2,
            old(self).base.uma.flags.refresh_mind < i32::MAX,
            old(self).base.uma.flags.refresh_mind > 0 ==> cheer_fits(old(self).base.uma, 5, 0),
        ensures
            match r {
                Ok(list) => exists|drawn: BeginDraws| #[trigger]
                    begun(*old(self), *final(self), data, cons, events, rates, drawn)
                        && event_views(list@) == begin_events(
                        old(self),
                        data,
                        cons,
                        events,
                        unlock_event(data, drawn),
                        random,
                    ),
                Err(e) => e == SimError::MissingEvent && exists|drawn: BeginDraws| #[trigger]
                    drawn_at_begin(*old(self), *final(self), cons, rates, drawn),
            },
            r is Err <==> old(self).base.turn == 48 && named(events.system_events@, "ticket"@) is None,
    {
        let unlock: Option<EventData> = self.run_begin_draws(data, cons, rates, rng);
        let ghost mid = *self;
        let ghost drawn = choose|drawn: BeginDraws| #[trigger]
            drawn_at_begin(*old(self), mid, cons, rates, drawn) && event_view(unlock)
                == unlock_event(data, drawn);
        let ghost view = event_view(unlock);
        let r: Result<Vec<EventData>, SimError> = self.choose_begin_events(
            data,
            cons,
            events,
            unlock,
            random,
        );
        assert(begin_events(&mid, data, cons, events, view, random) == begin_events(
            old(self),
            data,
            cons,
            events,
            view,
            random,
        ));
        assert(r is Ok ==> begun(*old(self), *self, data, cons, events, rates, drawn));
        assert(r is Err ==> drawn_at_begin(*old(self), *self, cons, rates, drawn));
        r
    }

    /// The end of a turn's beginning: on a super ramen turn vitality and motivation rise, and on
    /// the first of them the race bonus as well.
    pub fn finish_begin(&mut self, data: &RamenScenarioData)
        requires
            super_turn(old(self).base.turn as int) ==> cheer_fits(
                old(self).base.uma,
                data.finals_effect.base.vital as int,
                data.finals_effect.base.motivation as int,
            ),
            old(self).base.turn == 72 ==> i32::MIN <= old(self).base.uma.race_bonus
                + data.finals_effect.base.saihou <= i32::MAX,
        ensures
            super_fed(
                old(self).base.uma,
                old(self).base.turn as int,
                data,
                final(self).base.uma,
            ),
            *final(self) == (RamenGame {
                base: BaseGame { uma: final(self).base.uma, ..old(self).base },
                ..*old(self)
            }),
    {
        if self.is_super_ramen_turn() {
            let ghost u0 = self.base.uma;
            cheer(
                &mut self.base.uma,
                data.finals_effect.base.vital,
                data.finals_effect.base.motivation,
            );
            let ghost u1 = self.base.uma;
            assert(u1.race_bonus == u0.race_bonus);
            if self.base.turn == 72 {
                self.base.uma.race_bonus = self.base.uma.race_bonus
                    + data.finals_effect.base.saihou;
            }
            assert((Uma { race_bonus: u0.race_bonus, ..self.base.uma }) == u1);
        }
    }
}

/// What the super ramen has done at the beginning of a turn.
pub open spec fn super_fed(u: Uma, turn: int, data: &RamenScenarioData, after: Uma) -> bool {
    let base = data.finals_effect.base;
    if super_turn(turn) {
        &&& cheered(
            u,
            base.vital as int,
            base.motivation as int,
            (Uma { race_bonus: u.race_bonus, ..after }),
        )
        &&& after.race_bonus == u.race_bonus + if turn == 72 {
            base.saihou as int
        } else {
            0
        }
    } else {
        after == u
    }
}

/// The race bonus of the super ramen is granted once: over its turns it rises exactly on the first.
pub proof fn law_race_bonus_granted_once(
    u: Uma,
    turn: int,
    data: &RamenScenarioData,
    after: Uma,
)
    requires
        super_fed(u, turn, data, after),
        turn != 72,
    ensures
        after.race_bonus == u.race_bonus,
{
}

/// A year starts with the stocks that the friend brings: two of each kind and two hidden flavours
/// with the scenario's own friend, one of each with two other characters, nothing but one hidden
/// flavour with anyone else or nobody. Hidden flavours are held at four.
pub proof fn law_friend_brings_the_stocks(
    before: RamenState,
    deck: Seq<SupportCard>,
    after: RamenState,
    d: int,
    n: int,
)
    requires
        stocks_set(before, deck, after),
        0 <= d <= deck.len(),
        forall|j: int| 0 <= j < d ==> (#[trigger] deck[j]).card_type < 5,
        d < deck.len() ==> deck[d].card_type >= 5,
        n == if d == deck.len() {
            0int
        } else if deck[d].card_id == 30305 {
            2
        } else if deck[d].data.chara_id == 9001 || deck[d].data.chara_id == 9008 {
            1
        } else {
            0
        },
    ensures
        after.feeling_stock@[0] == n && after.feeling_stock@[1] == n && after.feeling_stock@[2] == n,
        after.feeling_queue@.len() == 3 * n,
        n >= 1 ==> after.feeling_queue@[0] == FeelingType::A && after.feeling_queue@[1]
            == FeelingType::B && after.feeling_queue@[2] == FeelingType::C,
        before.special_feeling + (if n > 0 {
            n
        } else {
            1
        }) <= 4 ==> after.special_feeling == before.special_feeling + (if n > 0 {
            n
        } else {
            1
        }),
        before.special_feeling >= 4 ==> after.special_feeling == 4,
        after.special_feeling <= 4,
        after.feeling_slot == before.feeling_slot,
        after.scenario_pt == before.scenario_pt,
{
    lemma_first_friend(deck, 0, d);
    reveal_with_fuel(initial_queue, 3);
    assert(ints(after.feeling_stock)[0] == after.feeling_stock@[0]);
    assert(ints(after.feeling_stock)[1] == after.feeling_stock@[1]);
    assert(ints(after.feeling_stock)[2] == after.feeling_stock@[2]);
}

proof fn lemma_first_friend(deck: Seq<SupportCard>, from: int, d: int)
    requires
        0 <= from <= d <= deck.len(),
        forall|j: int| from <= j < d ==> (#[trigger] deck[j]).card_type < 5,
        d < deck.len() ==> deck[d].card_type >= 5,
    ensures
        friend_card(deck, from) == if d < deck.len() {
            Some(deck[d])
        } else {
            None
        },
    decreases d - from,
{
    if from < d {
        assert(deck[from].card_type < 5);
        lemma_first_friend(deck, from + 1, d);
    }
}

/// Stocks are set anew on turns two, twenty-four and forty-eight.
pub proof fn law_years_start_afresh(turn: int)
    ensures
        fresh_stock_turn(turn) <==> turn == 2 || turn == 24 || turn == 48,
{
}

/// A refreshed mind restores five of the vitality each turn, up to the largest value, and lasts one
/// turn more or ends; without it nothing happens.
pub proof fn law_refreshed_mind_restores(u: Uma, ends: bool, after: Uma)
    requires
        refreshed(u, ends, after),
        cheer_fits(u, 5, 0),
        u.flags.refresh_mind < i32::MAX,
    ensures
        u.flags.refresh_mind <= 0 ==> after == u,
        u.flags.refresh_mind > 0 && ends ==> after.flags.refresh_mind == 0,
        u.flags.refresh_mind > 0 && !ends ==> after.flags.refresh_mind == u.flags.refresh_mind + 1,
        u.flags.refresh_mind > 0 && 0 <= u.vital && u.vital + 5 <= u.max_vital ==> after.vital
            == u.vital + 5,
        u.flags.refresh_mind > 0 && 0 <= u.vital <= u.max_vital < u.vital + 5 ==> after.vital
            == u.max_vital,
        1 <= u.motivation <= 5 ==> after.motivation == u.motivation,
        after.skill_pt == u.skill_pt,
        after.max_vital == u.max_vital,
        after.flags.ill == u.flags.ill,
{
    if u.flags.refresh_mind > 0 {
        let held = Uma { flags: u.flags, ..after };
        let v = choose|v: ActionValue| #[trigger] spirits(v, 5, 0) && u.value_step(&v, held);
        assert(v.status_pt@[5] == 0);
    }
}

/// A refreshed mind ends with the chance of the turns for which it has lasted, and with that of the
/// sixth turn from then on.
pub proof fn law_refreshed_mind_end_chance(rates: &EventRates, lasted: int)
    requires
        lasted >= 0,
    ensures
        lasted <= 6 ==> end_rate(rates, lasted) == rates.refresh_end@[lasted],
        lasted >= 6 ==> end_rate(rates, lasted) == rates.refresh_end@[6],
{
}

/// Hidden flavours that a turn brings are added at its beginning, up to four: two on the first turn
/// of a summer camp and one on its others. Turns on which the stocks are set anew bring theirs there.
pub proof fn law_hidden_flavours_arrive(game: &RamenGame)
    requires
        0 <= game.ramen.special_feeling <= 4,
    ensures
        ({
            let had = game.ramen.special_feeling as int;
            let turn = game.base.turn;
            &&& turn == 36 || turn == 60 ==> special_begun(game) == if had <= 2 {
                had + 2
            } else {
                4
            }
            &&& 37 <= turn <= 39 || 61 <= turn <= 63 ==> special_begun(game) == if had <= 3 {
                had + 1
            } else {
                4
            }
            &&& !(36 <= turn <= 39 || 60 <= turn <= 63) ==> special_begun(game) == had
        }),
{
}

/// Events bound to the turn come before anything that chance brings, the scenario's own before those
/// that all scenarios share, and neither depends on chance.
pub proof fn law_bound_events_come_first(
    game: &RamenGame,
    data: &RamenScenarioData,
    cons: &GameConstants,
    events: &EventCollection,
    random: &RandomEvents,
)
    ensures
        ({
            let own = turn_events(event_views(data.scenario_events@), game.base.turn);
            let shared = turn_events(event_views(events.story_events@), game.base.turn);
            &&& own.len() > 0 ==> generated(game, data, cons, events, random) == own
            &&& own.len() == 0 && shared.len() > 0 ==> generated(game, data, cons, events, random)
                == shared
            &&& random_due(game, data, cons, events) <==> own.len() == 0 && shared.len() == 0
                && !cons.no_event_turns@.contains(game.base.turn)
            &&& own.len() == 0 && shared.len() == 0 && cons.no_event_turns@.contains(
                game.base.turn,
            ) ==> generated(game, data, cons, events, random).len() == 0
        }),
{
}

/// Where chance decides, the first result brings the event of a card once a card has joined, the
/// second that of the character, the third a drop of the motivation from turn twelve on, and every
/// other result nothing.
pub proof fn law_chance_brings_one_event(
    game: &RamenGame,
    data: &RamenScenarioData,
    cons: &GameConstants,
    events: &EventCollection,
    random: &RandomEvents,
)
    requires
        random_due(game, data, cons, events),
    ensures
        ({
            let list = generated(game, data, cons, events, random);
            let cards = exists|i: int|
                0 <= i < game.persons@.len() && (#[trigger] game.persons@[i]).person_type
                    == PersonType::Card;
            &&& list.len() <= 1
            &&& random.roll == 0 ==> (list.len() == 1 <==> cards && random.card_event is Some)
            &&& random.roll == 0 && cards ==> (random.card_event matches Some(e) ==> list[0] == e@)
            &&& random.roll == 1 ==> (list.len() == 1 <==> random.uma_event is Some)
            &&& random.roll == 1 ==> (random.uma_event matches Some(e) ==> list[0] == e@)
            &&& random.roll == 2 && game.base.turn < 12 ==> list.len() == 0
            &&& random.roll == 2 && game.base.turn >= 12 ==> match named(
                events.system_events@,
                "drop_motivation"@,
            ) {
                Some(e) => list =~= seq![e],
                None => list.len() == 0,
            }
            &&& random.roll > 2 ==> list.len() == 0
        }),
{
}

/// The friend's new year on turn twenty-four, the ticket on turn forty-eight and the endings on turn
/// seventy-seven come on these turns and no others; the friend's only once outings are open.
pub proof fn law_due_events_by_turn(
    game: &RamenGame,
    data: &RamenScenarioData,
    events: &EventCollection,
)
    ensures
        ({
            let open = game.base.friend.out_state == FriendOutState::AfterUnlock;
            let turn = game.base.turn;
            &&& turn != 24 || !open ==> due_at_begin(game, data).len() == 0
            &&& turn == 24 && open ==> (named(data.friend_events@, "newyear"@) matches Some(e)
                ==> due_at_begin(game, data) =~= seq![e])
            &&& turn != 48 && turn != 77 ==> due_at_end(game, data, events).len() == 0
            &&& turn == 48 ==> (named(events.system_events@, "ticket"@) matches Some(e)
                ==> due_at_end(game, data, events) =~= seq![e])
            &&& turn == 77 && open ==> (named(data.friend_events@, "end"@) matches Some(e) ==> (named(
                events.system_events@,
                "ending"@,
            ) matches Some(f) ==> due_at_end(game, data, events).take(2) =~= seq![e, f]))
            &&& turn == 77 && !open ==> (named(events.system_events@, "ending"@) matches Some(f)
                ==> due_at_end(game, data, events)[0] == f)
            &&& turn == 77 ==> (event_by_id(event_views(data.scenario_events@), 401407) matches Some(
                e,
            ) ==> due_at_end(game, data, events).last() == e)
        }),
{
}

/// Outings with the friend can open only before they are open, on turns with random events, and with
/// the better of two chances from a bond of sixty on.
pub proof fn law_outings_open_by_bond(
    game: &RamenGame,
    cons: &GameConstants,
    rates: &EventRates,
)
    requires
        0 <= game.base.friend.person_index < game.persons@.len(),
    ensures
        unlock_possible(game, cons) <==> game.base.friend.out_state == FriendOutState::BeforeUnlock
            && !cons.no_event_turns@.contains(game.base.turn),
        game.persons@[game.base.friend.person_index as int].friendship >= 60 ==> unlock_rate(
            game,
            rates,
        ) == rates.friend_unlock_high,
        game.persons@[game.base.friend.person_index as int].friendship < 60 ==> unlock_rate(
            game,
            rates,
        ) == rates.friend_unlock_low,
{
}

/// When outings open, their event takes the place of every other event of the turn's beginning, but
/// for the one that is due then.
pub proof fn law_opening_replaces_other_events(
    game: &RamenGame,
    data: &RamenScenarioData,
    cons: &GameConstants,
    events: &EventCollection,
    unlock: EventView,
    random: &RandomEvents,
)
    requires
        game.base.turn != 24,
    ensures
        begin_events(game, data, cons, events, Some(unlock), random) =~= seq![unlock],
        begin_events(game, data, cons, events, None, random) =~= generated(
            game,
            data,
            cons,
            events,
            random,
        ),
{
}

/// The super ramen restores vitality and motivation on each of its turns, seventy-two to
/// seventy-seven, and on no other turn.
pub proof fn law_super_ramen_restores(u: Uma, turn: int, data: &RamenScenarioData, after: Uma)
    requires
        super_fed(u, turn, data, after),
        cheer_fits(
            u,
            data.finals_effect.base.vital as int,
            data.finals_effect.base.motivation as int,
        ),
    ensures
        !(72 <= turn <= 77) ==> after == u,
        72 <= turn <= 77 && 0 <= u.vital + data.finals_effect.base.vital <= u.max_vital
            ==> after.vital == u.vital + data.finals_effect.base.vital,
        72 <= turn <= 77 && 1 <= u.motivation + data.finals_effect.base.motivation <= 5
            ==> after.motivation == u.motivation + data.finals_effect.base.motivation,
        turn == 72 ==> after.race_bonus == u.race_bonus + data.finals_effect.base.saihou,
        turn != 72 ==> after.race_bonus == u.race_bonus,
        after.skill_pt == u.skill_pt,
        after.flags == u.flags,
{
    if 72 <= turn <= 77 {
        let base = data.finals_effect.base;
        let held = Uma { race_bonus: u.race_bonus, ..after };
        let v = choose|v: ActionValue| #[trigger]
            spirits(v, base.vital as int, base.motivation as int) && u.value_step(&v, held);
        assert(v.status_pt@[5] == 0);
    }
}

/// The rest of a turn's beginning touches the character's refreshed mind, the hidden flavours of the
/// turn and the events that wait for its end, and nothing else of the career.
pub proof fn law_beginning_touches_little(
    before: RamenGame,
    after: RamenGame,
    data: &RamenScenarioData,
    cons: &GameConstants,
    events: &EventCollection,
    rates: &EventRates,
    drawn: BeginDraws,
)
    requires
        begun(before, after, data, cons, events, rates, drawn),
    ensures
        after.base.turn == before.base.turn,
        after.stage == before.stage,
        after.persons == before.persons,
        after.base.deck == before.base.deck,
        after.base.distribution == before.base.distribution,
        after.base.friend == before.base.friend,
        after.base.events == before.base.events,
        after.ramen.feeling_stock == before.ramen.feeling_stock,
        after.ramen.feeling_slot == before.ramen.feeling_slot,
        after.ramen.feeling_queue == before.ramen.feeling_queue,
        after.ramen.scenario_pt == before.ramen.scenario_pt,
        before.base.uma.flags.refresh_mind <= 0 ==> after.base.uma == before.base.uma && !drawn.ends,
        before.base.turn != 48 && before.base.turn != 77 ==> event_views(
            after.base.unresolved_events@,
        ) =~= event_views(before.base.unresolved_events@),
{
}

/// Outings with the friend open only from the state before it, and a refreshed mind ends only where
/// there is one; a chance of none never comes about, a certain one always does.
pub proof fn law_chances_of_the_beginning(
    game: &RamenGame,
    cons: &GameConstants,
    rates: &EventRates,
    drawn: BeginDraws,
)
    requires
        draws_fit(game, cons, rates, drawn),
        0 <= game.base.friend.person_index < game.persons@.len(),
    ensures
        drawn.unlocks ==> game.base.friend.out_state == FriendOutState::BeforeUnlock
            && !cons.no_event_turns@.contains(game.base.turn),
        drawn.ends ==> game.base.uma.flags.refresh_mind > 0,
        drawn.unlocks && game.persons@[game.base.friend.person_index as int].friendship < 60
            ==> rates.friend_unlock_low > 0,
        drawn.unlocks && game.persons@[game.base.friend.person_index as int].friendship >= 60
            ==> rates.friend_unlock_high > 0,
        game.base.friend.out_state == FriendOutState::BeforeUnlock && !cons.no_event_turns@.contains(
            game.base.turn,
        ) && rates.friend_unlock_low == 10_000 && rates.friend_unlock_high == 10_000
            ==> drawn.unlocks,
        game.base.uma.flags.refresh_mind == 1 && rates.refresh_end@[1] == 10_000 ==> drawn.ends,
        game.base.uma.flags.refresh_mind == 1 && rates.refresh_end@[1] == 0 ==> !drawn.ends,
{
}

/// The event that opens outings is the friend's outing event, and it comes exactly when they open.
pub proof fn law_opening_event(data: &RamenScenarioData, drawn: BeginDraws)
    ensures
        drawn.unlocks ==> unlock_event(data, drawn) == named(data.friend_events@, "out"@),
        !drawn.unlocks ==> unlock_event(data, drawn) is None,
{
}

/// The chances of a turn's beginning are drawn before its events: they touch the refreshed mind and the
/// hidden flavours, and leave the events that wait as they are.
pub proof fn law_draws_come_before_events(
    before: RamenGame,
    after: RamenGame,
    cons: &GameConstants,
    rates: &EventRates,
    drawn: BeginDraws,
)
    requires
        drawn_at_begin(before, after, cons, rates, drawn),
        0 <= before.ramen.special_feeling <= 4,
    ensures
        after.base.unresolved_events == before.base.unresolved_events,
        after.base.turn == before.base.turn,
        after.persons == before.persons,
        after.ramen.feeling_stock == before.ramen.feeling_stock,
        !(36 <= before.base.turn <= 39 || 60 <= before.base.turn <= 63)
            ==> after.ramen.special_feeling == before.ramen.special_feeling,
        before.base.turn == 36 && before.ramen.special_feeling == 0 ==> after.ramen.special_feeling
            == 2,
        before.base.uma.flags.refresh_mind <= 0 ==> after.base.uma == before.base.uma,
{
    law_hidden_flavours_arrive(&before);
}

/// A turn opens with no decision in progress. On turns two, twenty-four and forty-eight the stocks are
/// set anew; on all others stocks, queue and hidden flavours are those of the turn before.
pub proof fn law_turn_opens(before: RamenGame, after: RamenGame)
    requires
        opened(before, after),
    ensures
        after.ramen.pending_ramen is None,
        !after.ramen.combined_decision,
        after.ramen.scenario_pt == before.ramen.scenario_pt,
        after.ramen.feeling_slot == before.ramen.feeling_slot,
        before.base.turn != 2 && before.base.turn != 24 && before.base.turn != 48 ==> {
            &&& after.ramen.feeling_stock == before.ramen.feeling_stock
            &&& after.ramen.feeling_queue == before.ramen.feeling_queue
            &&& after.ramen.special_feeling == before.ramen.special_feeling
        },
        before.base.turn == 2 || before.base.turn == 24 || before.base.turn == 48 ==> {
            &&& after.ramen.feeling_stock@[0] == after.ramen.feeling_stock@[1]
            &&& after.ramen.feeling_stock@[1] == after.ramen.feeling_stock@[2]
            &&& after.ramen.feeling_stock@[0] <= 2
            &&& before.ramen.special_feeling == 0 ==> 1 <= after.ramen.special_feeling <= 2
        },
        before.base.turn != 2 && before.base.turn != 12 ==> after.persons@ == before.persons@,
{
    let a = ints(after.ramen.feeling_stock);
    assert(a[0] == after.ramen.feeling_stock@[0]);
    assert(a[1] == after.ramen.feeling_stock@[1]);
    assert(a[2] == after.ramen.feeling_stock@[2]);
}

/// On turn twenty-four with outings open the friend's new year comes last among the turn's events.
pub proof fn law_new_year_comes_last(
    game: &RamenGame,
    data: &RamenScenarioData,
    cons: &GameConstants,
    events: &EventCollection,
    unlock: Option<EventView>,
    random: &RandomEvents,
    e: EventView,
)
    requires
        game.base.turn == 24,
        game.base.friend.out_state == FriendOutState::AfterUnlock,
        named(data.friend_events@, "newyear"@) == Some(e),
    ensures
        begin_events(game, data, cons, events, unlock, random).last() == e,
{
}

} // verus!
