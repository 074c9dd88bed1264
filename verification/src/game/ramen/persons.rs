use vstd::prelude::*;
use super::distribution::{deck_position, lemma_deck_position};
use super::rules::NPC_CHARA_IDS;
use super::{super_turn, year_of, RamenGame};
use crate::game::base::person::{card_person, BasePerson, PersonType};
use crate::game::base::state::{BaseGame, FriendState};
use crate::game::support_card::SupportCard;
use crate::gamedata::ramen::RamenScenarioData;

verus! {

/// Persons with one more at the end, who learns their position.
pub open spec fn joined_by(persons: Seq<BasePerson>, p: BasePerson) -> Seq<BasePerson> {
    persons.push(BasePerson { person_index: persons.len() as i32, ..p })
}

/// The person that stands for a card.
pub open spec fn person_of(card: SupportCard) -> BasePerson {
    BasePerson {
        person_index: 0,
        person_type: card_person(card.card_type as int),
        train_type: card.card_type,
        chara_id: card.data.chara_id,
        friendship: card.friendship,
        is_hint: false,
        card_id: Some(card.card_id),
    }
}

/// Persons joined by those of the first cards of a deck, either the training cards or the friends
/// and groups.
pub open spec fn joined_by_cards(
    persons: Seq<BasePerson>,
    deck: Seq<SupportCard>,
    friends: bool,
    n: int,
) -> Seq<BasePerson>
    decreases n,
{
    if n <= 0 {
        persons
    } else {
        let before = joined_by_cards(persons, deck, friends, n - 1);
        if (deck[n - 1].card_type >= 5) == friends {
            joined_by(before, person_of(deck[n - 1]))
        } else {
            before
        }
    }
}

/// A bystander.
pub open spec fn npc(chara_id: u32) -> BasePerson {
    BasePerson {
        person_index: 0,
        person_type: PersonType::Npc,
        train_type: (-1) as i32,
        chara_id,
        friendship: 0,
        is_hint: false,
        card_id: None,
    }
}

/// Persons joined by the first bystanders.
pub open spec fn joined_by_npcs(persons: Seq<BasePerson>, n: int) -> Seq<BasePerson>
    decreases n,
{
    if n <= 0 {
        persons
    } else {
        joined_by(joined_by_npcs(persons, n - 1), npc(NPC_CHARA_IDS@[n - 1]))
    }
}

/// The director.
pub open spec fn director() -> BasePerson {
    BasePerson {
        person_index: 6,
        person_type: PersonType::Yayoi,
        train_type: (-1) as i32,
        chara_id: 9002,
        friendship: 0,
        is_hint: false,
        card_id: None,
    }
}

/// The reporter.
pub open spec fn journalist() -> BasePerson {
    BasePerson {
        person_index: 7,
        person_type: PersonType::Reporter,
        train_type: (-1) as i32,
        chara_id: 9003,
        friendship: 0,
        is_hint: false,
        card_id: None,
    }
}

/// Someone of a kind is among the persons.
pub open spec fn has_kind(persons: Seq<BasePerson>, kind: PersonType) -> bool {
    exists|i: int| 0 <= i < persons.len() && (#[trigger] persons[i]).person_type == kind
}

/// A bond raised by a number, a hundred at most.
pub open spec fn bond_after(bond: int, value: int) -> int {
    if bond + value < 100 {
        bond + value
    } else {
        100
    }
}

/// Persons and deck, which keep a bond each.
pub struct Bonds {
    pub persons: Seq<BasePerson>,
    pub deck: Seq<SupportCard>,
}

/// After the bond of one person has risen. The card behind the person gets the same bond.
pub open spec fn bonded(b: Bonds, i: int, value: int) -> Bonds {
    let bond = bond_after(b.persons[i].friendship as int, value) as i32;
    Bonds {
        persons: b.persons.update(i, BasePerson { friendship: bond, ..b.persons[i] }),
        deck: match b.persons[i].card_id {
            Some(cid) => match deck_position(b.deck, cid, 0) {
                Some(d) => b.deck.update(d, SupportCard { friendship: bond, ..b.deck[d] }),
                None => b.deck,
            },
            None => b.deck,
        },
    }
}

/// A training card or the scenario's friend.
pub open spec fn eats_along(kind: PersonType) -> bool {
    kind == PersonType::Card || kind == PersonType::ScenarioCard
}

/// After the bonds of all training cards and the scenario's friend among the first persons have
/// risen.
pub open spec fn all_bonded(b: Bonds, value: int, n: int) -> Bonds
    decreases n,
{
    if n <= 0 {
        b
    } else {
        let before = all_bonded(b, value, n - 1);
        if eats_along(before.persons[n - 1].person_type) {
            bonded(before, n - 1, value)
        } else {
            before
        }
    }
}

/// What eating does for the bonds: on a turn with a bowl or the super ramen, they rise by what the
/// year's bowls give.
pub open spec fn eaten_bonds(game: &RamenGame, data: &RamenScenarioData, eating: bool) -> Bonds {
    let b = Bonds { persons: game.persons@, deck: game.base.deck@ };
    let year_idx = year_of(game.base.turn as int) - 1;
    if (eating || super_turn(game.base.turn as int)) && year_idx < data.ramen_basic_effect@.len()
        && data.ramen_basic_effect@[year_idx].friendship > 0 {
        all_bonded(
            b,
            data.ramen_basic_effect@[year_idx].friendship as int,
            game.persons@.len() as int,
        )
    } else {
        b
    }
}

proof fn lemma_all_bonded_shape(b: Bonds, value: int, n: int)
    requires
        0 <= n <= b.persons.len(),
    ensures
        all_bonded(b, value, n).persons.len() == b.persons.len(),
        all_bonded(b, value, n).deck.len() == b.deck.len(),
        forall|i: int|
            0 <= i < b.persons.len() ==> (#[trigger] all_bonded(b, value, n).persons[i]).person_type
                == b.persons[i].person_type && all_bonded(b, value, n).persons[i].card_id
                == b.persons[i].card_id,
        forall|i: int|
            n <= i < b.persons.len() ==> #[trigger] all_bonded(b, value, n).persons[i]
                == b.persons[i],
        forall|d: int|
            0 <= d < b.deck.len() ==> (#[trigger] all_bonded(b, value, n).deck[d]).card_id
                == b.deck[d].card_id,
    decreases n,
{
    if n > 0 {
        lemma_all_bonded_shape(b, value, n - 1);
        let before = all_bonded(b, value, n - 1);
        let after = all_bonded(b, value, n);
        if eats_along(before.persons[n - 1].person_type) {
            assert(after == bonded(before, n - 1, value));
            if let Some(cid) = before.persons[n - 1].card_id {
                lemma_deck_position(before.deck, cid, 0);
            }
            assert forall|i: int|
                0 <= i < b.persons.len() implies (#[trigger] after.persons[i]).person_type
                == b.persons[i].person_type && after.persons[i].card_id == b.persons[i].card_id by {
                assert(before.persons[i].person_type == b.persons[i].person_type);
            }
            assert forall|i: int| n <= i < b.persons.len() implies #[trigger] after.persons[i]
                == b.persons[i] by {
                assert(before.persons[i] == b.persons[i]);
            }
            assert forall|d: int|
                0 <= d < b.deck.len() implies (#[trigger] after.deck[d]).card_id
                == b.deck[d].card_id by {
                assert(before.deck[d].card_id == b.deck[d].card_id);
            }
        }
    }
}

/// A rise of the bonds reaches every training card and the scenario's friend exactly once, and
/// nobody else.
pub proof fn law_bowl_bonds_once(b: Bonds, value: int, n: int, i: int)
    requires
        0 <= i < n <= b.persons.len(),
    ensures
        all_bonded(b, value, n).persons[i] == if eats_along(b.persons[i].person_type) {
            BasePerson {
                friendship: bond_after(b.persons[i].friendship as int, value) as i32,
                ..b.persons[i]
            }
        } else {
            b.persons[i]
        },
    decreases n,
{
    lemma_all_bonded_shape(b, value, n - 1);
    if i < n - 1 {
        law_bowl_bonds_once(b, value, n - 1, i);
    }
}

/// After the bond of a person with a card has risen, person and card keep the same bond.
pub proof fn law_person_and_card_agree(b: Bonds, i: int, value: int, d: int)
    requires
        0 <= i < b.persons.len(),
        b.persons[i].card_id matches Some(cid) && deck_position(b.deck, cid, 0) == Some(d),
        0 <= d < b.deck.len(),
    ensures
        bonded(b, i, value).persons[i].friendship == bonded(b, i, value).deck[d].friendship,
{
}

impl RamenGame {
    /// Adds a person at the end.
    pub fn add_person(&mut self, p: BasePerson)
        requires
            old(self).persons@.len() < i32::MAX,
        ensures
            final(self).persons@ == joined_by(old(self).persons@, p),
            *final(self) == (RamenGame { persons: final(self).persons, ..*old(self) }),
    {
        let n: usize = self.persons.len();
        self.persons.push(
            BasePerson {
                person_index: n as i32,
                person_type: p.person_type,
                train_type: p.train_type,
                chara_id: p.chara_id,
                friendship: p.friendship,
                is_hint: p.is_hint,
                card_id: p.card_id,
            },
        );
    }

    /// Adds the persons of the deck's training cards, or those of its friends and groups.
    fn add_cards(&mut self, friends: bool)
        requires
            old(self).persons@.len() + old(self).base.deck@.len() <= i32::MAX,
        ensures
            final(self).persons@ == joined_by_cards(
                old(self).persons@,
                old(self).base.deck@,
                friends,
                old(self).base.deck@.len() as int,
            ),
            final(self).persons@.len() <= old(self).persons@.len() + old(self).base.deck@.len(),
            *final(self) == (RamenGame { persons: final(self).persons, ..*old(self) }),
    {
        let mut i: usize = 0;
        while i < self.base.deck.len()
            invariant
                i <= self.base.deck@.len(),
                old(self).persons@.len() + old(self).base.deck@.len() <= i32::MAX,
                self.persons@.len() <= old(self).persons@.len() + i,
                self.persons@ == joined_by_cards(
                    old(self).persons@,
                    old(self).base.deck@,
                    friends,
                    i as int,
                ),
                *self == (RamenGame { persons: self.persons, ..*old(self) }),
            decreases self.base.deck@.len() - i,
        {
            if (self.base.deck[i].card_type >= 5) == friends {
                let p: BasePerson = BasePerson::from_card(&self.base.deck[i]);
                self.add_person(p);
            }
            i = i + 1;
        }
    }

    /// Adds the persons of the beginning: the training cards and the director.
    pub fn init_persons(&mut self)
        requires
            old(self).persons@.len() + old(self).base.deck@.len() < i32::MAX,
        ensures
            final(self).persons@ == joined_by(
                joined_by_cards(
                    old(self).persons@,
                    old(self).base.deck@,
                    false,
                    old(self).base.deck@.len() as int,
                ),
                director(),
            ),
            *final(self) == (RamenGame { persons: final(self).persons, ..*old(self) }),
    {
        self.add_cards(false);
        self.add_person(BasePerson::yayoi());
    }

    /// Adds friends and groups of the deck, and the five bystanders.
    pub fn add_friend_and_npcs(&mut self)
        requires
            old(self).persons@.len() + old(self).base.deck@.len() + 5 <= i32::MAX,
        ensures
            final(self).persons@ == joined_by_npcs(
                joined_by_cards(
                    old(self).persons@,
                    old(self).base.deck@,
                    true,
                    old(self).base.deck@.len() as int,
                ),
                5,
            ),
            final(self).base.friend.person_index == old(self).persons@.len(),
            *final(self) == (RamenGame {
                persons: final(self).persons,
                base: BaseGame {
                    friend: FriendState {
                        person_index: final(self).base.friend.person_index,
                        ..old(self).base.friend
                    },
                    ..old(self).base
                },
                ..*old(self)
            }),
    {
        let place: usize = self.persons.len();
        self.add_cards(true);
        let ghost base = self.persons@;
        let ghost mid = *self;
        let mut i: usize = 0;
        while i < 5
            invariant
                i <= 5,
                base == joined_by_cards(
                    old(self).persons@,
                    old(self).base.deck@,
                    true,
                    old(self).base.deck@.len() as int,
                ),
                base.len() + 5 <= i32::MAX,
                self.persons@.len() == base.len() + i,
                self.persons@ == joined_by_npcs(base, i as int),
                *self == (RamenGame { persons: self.persons, ..*old(self) }),
            decreases 5 - i,
        {
            let p: BasePerson = BasePerson {
                person_index: 0,
                person_type: PersonType::Npc,
                train_type: -1,
                chara_id: NPC_CHARA_IDS[i],
                friendship: 0,
                is_hint: false,
                card_id: None,
            };
            self.add_person(p);
            i = i + 1;
        }
        self.base.friend.person_index = place as i32;
    }

    /// Adds the reporter.
    pub fn add_reporter(&mut self)
        requires
            old(self).persons@.len() < i32::MAX,
        ensures
            final(self).persons@ == joined_by(old(self).persons@, journalist()),
            *final(self) == (RamenGame { persons: final(self).persons, ..*old(self) }),
    {
        self.add_person(BasePerson::reporter());
    }

    /// Whether someone of a kind is among the persons.
    pub fn any_of_kind(&self, kind: PersonType) -> (b: bool)
        ensures
            b == has_kind(self.persons@, kind),
    {
        let mut i: usize = 0;
        while i < self.persons.len()
            invariant
                i <= self.persons@.len(),
                forall|j: int| 0 <= j < i ==> (#[trigger] self.persons@[j]).person_type != kind,
            decreases self.persons@.len() - i,
        {
            if self.persons[i].person_type == kind {
                return true;
            }
            i = i + 1;
        }
        false
    }

    /// Adds those who come later: friends and bystanders on turn two, the reporter on turn twelve,
    /// each only once.
    pub fn manage_persons_on_turn_start(&mut self)
        requires
            old(self).persons@.len() + old(self).base.deck@.len() + 5 <= i32::MAX,
        ensures
            final(self).persons@ == persons_on(old(self)),
            *final(self) == (RamenGame {
                persons: final(self).persons,
                base: BaseGame {
                    friend: FriendState {
                        person_index: final(self).base.friend.person_index,
                        ..old(self).base.friend
                    },
                    ..old(self).base
                },
                ..*old(self)
            }),
            final(self).base.friend.person_index == if old(self).base.turn == 2 && !has_kind(
                old(self).persons@,
                PersonType::ScenarioCard,
            ) {
                old(self).persons@.len() as int
            } else {
                old(self).base.friend.person_index as int
            },
    {
        if self.base.turn == 2 && !self.any_of_kind(PersonType::ScenarioCard) {
            self.add_friend_and_npcs();
        }
        if self.base.turn == 12 && !self.any_of_kind(PersonType::Reporter) {
            self.add_reporter();
        }
    }

    /// Raises the bond of a person, and that of the card behind them.
    pub fn add_friendship(&mut self, person_index: usize, value: i32)
        requires
            person_index < old(self).persons@.len(),
            old(self).persons@[person_index as int].friendship + value >= i32::MIN,
        ensures
            ({
                let b = bonded(
                    (Bonds { persons: old(self).persons@, deck: old(self).base.deck@ }),
                    person_index as int,
                    value as int,
                );
                &&& final(self).persons@ == b.persons
                &&& final(self).base.deck@ == b.deck
            }),
            *final(self) == (RamenGame {
                persons: final(self).persons,
                base: BaseGame { deck: final(self).base.deck, ..old(self).base },
                ..*old(self)
            }),
    {
        let mut p: BasePerson = self.persons[person_index];
        let sum: i64 = p.friendship as i64 + value as i64;
        let bond: i32 = if sum < 100 {
            sum as i32
        } else {
            100
        };
        p.friendship = bond;
        let at: Option<usize> = self.deck_index_of(person_index);
        self.persons.set(person_index, p);
        match at {
            Some(d) => {
                self.base.deck[d].friendship = bond;
            },
            None => {},
        }
    }

    /// Raises the bonds on a turn with a bowl or the super ramen.
    pub fn apply_ramen_friendship(&mut self, data: &RamenScenarioData)
        ensures
            ({
                let b = eaten_bonds(old(self), data, old(self).ramen.current_ramen is Some);
                &&& final(self).persons@ == b.persons
                &&& final(self).base.deck@ == b.deck
            }),
            *final(self) == (RamenGame {
                persons: final(self).persons,
                base: BaseGame { deck: final(self).base.deck, ..old(self).base },
                ..*old(self)
            }),
    {
        let eating: bool = self.ramen.current_ramen.is_some();
        if !eating && !self.is_super_ramen_turn() {
            return;
        }
        let year_idx: usize = self.year_idx();
        if year_idx >= data.ramen_basic_effect.len() {
            return;
        }
        let value: i32 = data.ramen_basic_effect[year_idx].friendship;
        if value <= 0 {
            return;
        }
        let ghost b = Bonds { persons: self.persons@, deck: self.base.deck@ };
        let mut i: usize = 0;
        while i < self.persons.len()
            invariant
                value > 0,
                b == (Bonds { persons: old(self).persons@, deck: old(self).base.deck@ }),
                i <= b.persons.len(),
                self.persons@ == all_bonded(b, value as int, i as int).persons,
                self.base.deck@ == all_bonded(b, value as int, i as int).deck,
                self.persons@.len() == b.persons.len(),
                *self == (RamenGame {
                    persons: self.persons,
                    base: BaseGame { deck: self.base.deck, ..old(self).base },
                    ..*old(self)
                }),
            decreases b.persons.len() - i,
        {
            proof {
                lemma_all_bonded_shape(b, value as int, i + 1);
            }
            match self.persons[i].person_type {
                PersonType::Card | PersonType::ScenarioCard => {
                    self.add_friendship(i, value);
                },
                _ => {},
            }
            i = i + 1;
        }
    }
}

/// Those who are there once a turn has begun.
pub open spec fn persons_on(game: &RamenGame) -> Seq<BasePerson> {
    let turn = game.base.turn;
    let p = game.persons@;
    if turn == 2 && !has_kind(p, PersonType::ScenarioCard) {
        joined_by_npcs(joined_by_cards(p, game.base.deck@, true, game.base.deck@.len() as int), 5)
    } else if turn == 12 && !has_kind(p, PersonType::Reporter) {
        joined_by(p, journalist())
    } else {
        p
    }
}

/// A bond grows by its amount and ends at a hundred; the person's card has the same bond, and nobody
/// else's changes.
pub proof fn law_bond_grows_up_to_a_hundred(b: Bonds, i: int, value: int, k: int)
    requires
        0 <= i < b.persons.len(),
        0 <= k < b.persons.len(),
        b.persons[i].friendship + value >= i32::MIN,
    ensures
        ({
            let after = bonded(b, i, value);
            &&& b.persons[i].friendship + value <= 100 ==> after.persons[i].friendship
                == b.persons[i].friendship + value
            &&& b.persons[i].friendship + value > 100 ==> after.persons[i].friendship == 100
            &&& k != i ==> after.persons[k] == b.persons[k]
            &&& after.persons[i].train_type == b.persons[i].train_type
            &&& after.persons[i].person_type == b.persons[i].person_type
            &&& after.persons[i].is_hint == b.persons[i].is_hint
            &&& after.persons.len() == b.persons.len()
            &&& after.deck.len() == b.deck.len()
            &&& b.persons[i].card_id is None ==> after.deck == b.deck
        }),
{
    if let Some(cid) = b.persons[i].card_id {
        lemma_deck_position(b.deck, cid, 0);
    }
}

/// Whoever eats along grows closer by what the year's bowls give, up to a hundred: cards and the
/// scenario's friend, on a turn with a bowl or the super ramen. Everyone else stays as they were.
pub proof fn law_bowl_brings_cards_closer(
    game: &RamenGame,
    data: &RamenScenarioData,
    eating: bool,
    i: int,
    y: int,
)
    requires
        0 <= i < game.persons@.len(),
        game.persons@[i].friendship >= 0,
        y == if game.base.turn <= 23 {
            0int
        } else if game.base.turn <= 47 {
            1
        } else {
            2
        },
        data.ramen_basic_effect@.len() >= 3,
        data.ramen_basic_effect@[y].friendship >= 0,
    ensures
        ({
            let before = game.persons@[i];
            let after = eaten_bonds(game, data, eating).persons[i];
            let gain = data.ramen_basic_effect@[y].friendship;
            let along = before.person_type == PersonType::Card || before.person_type
                == PersonType::ScenarioCard;
            &&& along && (eating || 72 <= game.base.turn <= 77) && before.friendship <= 100
                ==> after.friendship == if before.friendship + gain <= 100 {
                before.friendship + gain
            } else {
                100
            }
            &&& !along ==> after == before
            &&& !eating && !(72 <= game.base.turn <= 77) ==> after == before
            &&& after.person_type == before.person_type
            &&& after.train_type == before.train_type
            &&& after.card_id == before.card_id
        }),
{
    let b = Bonds { persons: game.persons@, deck: game.base.deck@ };
    let gain = data.ramen_basic_effect@[y].friendship as int;
    law_bowl_bonds_once(b, gain, game.persons@.len() as int, i);
}

/// Persons join at two points: on turn two the friends of the deck and five bystanders, unless they
/// are there, and on turn twelve the reporter, unless there is one. On other turns nobody joins, and
/// nobody ever leaves.
pub proof fn law_persons_join_on_their_turns(game: &RamenGame)
    ensures
        ({
            let before = game.persons@;
            let after = persons_on(game);
            let friend = exists|i: int|
                0 <= i < before.len() && (#[trigger] before[i]).person_type
                    == PersonType::ScenarioCard;
            let reporter = exists|i: int|
                0 <= i < before.len() && (#[trigger] before[i]).person_type == PersonType::Reporter;
            &&& after.len() >= before.len()
            &&& after.take(before.len() as int) =~= before
            &&& game.base.turn != 2 && game.base.turn != 12 ==> after == before
            &&& game.base.turn == 2 && friend ==> after == before
            &&& game.base.turn == 12 && reporter ==> after == before
            &&& game.base.turn == 12 && !reporter ==> {
                &&& after.len() == before.len() + 1
                &&& after.last().person_type == PersonType::Reporter
                &&& after.last().chara_id == 9003
                &&& after.last().card_id is None
            }
            &&& game.base.turn == 2 && !friend ==> {
                &&& after.len() >= before.len() + 5
                &&& forall|i: int|
                    after.len() - 5 <= i < after.len() ==> (#[trigger] after[i]).person_type
                        == PersonType::Npc && after[i].card_id is None && after[i].friendship == 0
                &&& after[after.len() - 5].chara_id == 1022
                &&& after[after.len() - 4].chara_id == 1058
                &&& after[after.len() - 3].chara_id == 1060
                &&& after[after.len() - 2].chara_id == 1077
                &&& after[after.len() - 1].chara_id == 1120
            }
        }),
{
    let before = game.persons@;
    if game.base.turn == 2 && !has_kind(before, PersonType::ScenarioCard) {
        let deck = game.base.deck@;
        lemma_cards_join_behind(before, deck, true, deck.len() as int);
        let mid = joined_by_cards(before, deck, true, deck.len() as int);
        reveal_with_fuel(joined_by_npcs, 6);
        let after = persons_on(game);
        assert(after.len() == mid.len() + 5);
        assert(after.take(before.len() as int) =~= before) by {
            assert forall|k: int| 0 <= k < before.len() implies after[k] == #[trigger] before[k] by {
                assert(mid.take(before.len() as int)[k] == before[k]);
            }
        }
    } else {
        assert(persons_on(game).take(before.len() as int) =~= before);
    }
}

proof fn lemma_cards_join_behind(
    persons: Seq<BasePerson>,
    deck: Seq<SupportCard>,
    friends: bool,
    n: int,
)
    requires
        0 <= n <= deck.len(),
    ensures
        joined_by_cards(persons, deck, friends, n).len() >= persons.len(),
        joined_by_cards(persons, deck, friends, n).take(persons.len() as int) =~= persons,
    decreases n,
{
    if n > 0 {
        lemma_cards_join_behind(persons, deck, friends, n - 1);
        let mid = joined_by_cards(persons, deck, friends, n - 1);
        let after = joined_by_cards(persons, deck, friends, n);
        assert forall|k: int| 0 <= k < persons.len() implies after[k] == #[trigger] persons[k] by {
            assert(mid.take(persons.len() as int)[k] == persons[k]);
        }
    }
}

/// Every card of the deck joins once, the trainable kinds at the start and friends and groups on
/// their turn, in the order of the deck. Whoever joins knows the place that they have.
pub proof fn law_cards_join_in_deck_order(
    persons: Seq<BasePerson>,
    deck: Seq<SupportCard>,
    n: int,
    friends: bool,
)
    requires
        0 <= n < deck.len(),
        joined_by_cards(persons, deck, friends, n).len() < i32::MAX,
    ensures
        ({
            let mid = joined_by_cards(persons, deck, friends, n);
            let after = joined_by_cards(persons, deck, friends, n + 1);
            let card = deck[n];
            let joins = if friends {
                card.card_type >= 5
            } else {
                card.card_type < 5
            };
            &&& !joins ==> after == mid
            &&& joins ==> {
                &&& after.len() == mid.len() + 1
                &&& after.drop_last() =~= mid
                &&& after.last().person_index == mid.len()
                &&& after.last().card_id == Some(card.card_id)
                &&& after.last().friendship == card.friendship
                &&& after.last().train_type == card.card_type
                &&& after.last().chara_id == card.data.chara_id
                &&& !after.last().is_hint
                &&& card.card_type < 5 ==> after.last().person_type == PersonType::Card
                &&& card.card_type == 5 ==> after.last().person_type == PersonType::ScenarioCard
                &&& card.card_type == 6 ==> after.last().person_type == PersonType::TeamCard
            }
        }),
        joined_by_cards(persons, deck, friends, 0) == persons,
{
}

/// At the start of a career the cards of the trainable kinds come first and the director last, who has
/// no card; friends and groups are not there yet.
pub proof fn law_director_closes_the_first_row(persons: Seq<BasePerson>, deck: Seq<SupportCard>)
    ensures
        ({
            let cards = joined_by_cards(persons, deck, false, deck.len() as int);
            let all = joined_by(cards, director());
            &&& all.drop_last() =~= cards
            &&& all.last().person_type == PersonType::Yayoi
            &&& all.last().chara_id == 9002
            &&& all.last().card_id is None
            &&& all.last().friendship == 0
            &&& cards.len() < i32::MAX ==> all.last().person_index == cards.len()
        }),
        journalist().chara_id == 9003 && journalist().person_type == PersonType::Reporter,
{
}

} // verus!
