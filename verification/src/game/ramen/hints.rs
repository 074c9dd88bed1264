use rand::rngs::StdRng;
use vstd::prelude::*;
use super::distribution::{
    deck_position,
    lemma_deck_position,
    lemma_place_is_first,
    lemma_same_position,
};
use super::effects::{calc_lasting_effect, covers, covers_train, lasting_effect};
use super::{year_of, RamenGame};
use crate::game::base::person::{BasePerson, Person, PersonType};
use crate::game::support_card::{same_card, same_cards, SupportCard};
use crate::gamedata::constants::GameConstants;
use crate::gamedata::ramen::RamenScenarioData;
use crate::lists::holds;
use crate::rng::draw_ratio;

verus! {

/// How many kinds of cards a deck holds.
pub open spec fn kinds_held(counts: Seq<i32>, upto: int) -> int
    decreases upto,
{
    if upto <= 0 {
        0
    } else {
        kinds_held(counts, upto - 1) + if counts[upto - 1] > 0 {
            1int
        } else {
            0
        }
    }
}

/// The hidden hint works with a bowl: the year's bowls bring it, and the deck holds four kinds of
/// cards or more.
pub open spec fn hint_special(game: &RamenGame, data: &RamenScenarioData, ramen: Option<usize>) -> bool {
    let year_idx = year_of(game.base.turn as int) - 1;
    &&& ramen is Some
    &&& year_idx < data.ramen_basic_effect@.len()
    &&& data.ramen_basic_effect@[year_idx].hint_special
    &&& kinds_held(game.card_type_count@, 7) >= 4
}

/// The hidden hint works at a training.
pub open spec fn hint_special_at(
    game: &RamenGame,
    data: &RamenScenarioData,
    train: usize,
    ramen: Option<usize>,
) -> bool {
    &&& hint_special(game, data, ramen)
    &&& ramen->0 < data.ramen_region_effect@.len()
    &&& covers(data.ramen_region_effect@[ramen->0 as int], train)
}

/// The rise of the hint chance that a card brings.
pub open spec fn hint_bonus_of(deck: Seq<SupportCard>, card_id: Option<u32>) -> int {
    match card_id {
        Some(cid) => match deck_position(deck, cid, 0) {
            Some(d) => deck[d].value().hint_prob_increase as int,
            None => 0,
        },
        None => 0,
    }
}

/// What a card adds to the chance of a hint does not depend on what was kept of the cards.
pub proof fn lemma_same_hint_bonus(a: Seq<SupportCard>, b: Seq<SupportCard>, card_id: Option<u32>)
    requires
        same_cards(a, b),
    ensures
        hint_bonus_of(a, card_id) == hint_bonus_of(b, card_id),
{
    if let Some(cid) = card_id {
        lemma_same_position(a, b, cid, 0);
        lemma_deck_position(a, cid, 0);
        if let Some(d) = deck_position(a, cid, 0) {
            assert(same_card(a[d], b[d]));
        }
    }
}

/// The chance of a hint on a card, in parts of a hundred million: the base chance, raised by the
/// card and by the scenario.
pub open spec fn hint_odds(
    game: &RamenGame,
    data: &RamenScenarioData,
    cons: &GameConstants,
    person: BasePerson,
) -> int {
    let pct = lasting_effect(
        data,
        game.ramen.rmj_results@,
        game.ramen.scenario_pt as int,
        year_of(game.base.turn as int) - 1,
    ).hint;
    cons.base_hint_rate * (100 + hint_bonus_of(game.base.deck@, person.card_id)) * (100 + pct)
}

/// A person stands at a training that the list covers.
pub open spec fn stands_covered(seats: Seq<Seq<i32>>, trains: Seq<i32>, p: int, upto: int) -> bool {
    exists|t: int|
        0 <= t < upto && trains.contains(t as i32) && (#[trigger] seats[t]).contains(p as i32)
}

/// The trainings that the region of a bowl covers; none for an unknown bowl.
pub open spec fn bowl_trains(data: &RamenScenarioData, ramen: Option<usize>) -> Seq<i32> {
    match ramen {
        Some(i) => if i < data.ramen_region_effect@.len() {
            data.ramen_region_effect@[i as int].at_trains@
        } else {
            Seq::empty()
        },
        None => Seq::empty(),
    }
}

impl RamenGame {
    /// Whether the hidden hint works with a bowl.
    pub fn calc_hint_special_active(&self, data: &RamenScenarioData, ramen: Option<usize>) -> (b: bool)
        ensures
            b == hint_special(self, data, ramen),
    {
        if ramen.is_none() {
            return false;
        }
        let year_idx: usize = self.year_idx();
        if year_idx >= data.ramen_basic_effect.len() {
            return false;
        }
        if !data.ramen_basic_effect[year_idx].hint_special {
            return false;
        }
        let mut kinds: i32 = 0;
        let mut i: usize = 0;
        while i < 7
            invariant
                i <= 7,
                0 <= kinds <= i,
                kinds == kinds_held(self.card_type_count@, i as int),
            decreases 7 - i,
        {
            if self.card_type_count[i] > 0 {
                kinds = kinds + 1;
            }
            i = i + 1;
        }
        kinds >= 4
    }

    /// The trainings at which the hidden hint works with a bowl: those that its region covers.
    pub fn calc_hint_special_at_trains(&self, data: &RamenScenarioData, ramen: Option<usize>) -> (trains:
        Vec<i32>)
        ensures
            trains@ == bowl_trains(data, ramen),
    {
        match ramen {
            Some(i) => if i < data.ramen_region_effect.len() {
                data.ramen_region_effect[i].at_trains.clone()
            } else {
                Vec::new()
            },
            None => Vec::new(),
        }
    }

    /// Whether the hidden hint works at a training this turn.
    pub fn is_hint_special_active_for_train(&self, data: &RamenScenarioData, train: usize) -> (b: bool)
        ensures
            b == hint_special_at(self, data, train, self.ramen.current_ramen),
    {
        self.is_hint_special_active_for_train_with_ramen(data, train, self.ramen.current_ramen)
    }

    /// Whether the hidden hint would work at a training with a bowl.
    pub fn is_hint_special_active_for_train_with_ramen(
        &self,
        data: &RamenScenarioData,
        train: usize,
        ramen: Option<usize>,
    ) -> (b: bool)
        ensures
            b == hint_special_at(self, data, train, ramen),
    {
        if !self.calc_hint_special_active(data, ramen) {
            return false;
        }
        match ramen {
            Some(i) => if i < data.ramen_region_effect.len() {
                covers_train(&data.ramen_region_effect[i], train)
            } else {
                false
            },
            None => false,
        }
    }

    /// The rise of the hint chance that the scenario brings, in percent.
    pub fn calc_hint_bonus_pct(&self, data: &RamenScenarioData) -> (pct: i32)
        requires
            data.complete(),
        ensures
            pct == lasting_effect(
                data,
                self.ramen.rmj_results@,
                self.ramen.scenario_pt as int,
                year_of(self.base.turn as int) - 1,
            ).hint,
    {
        calc_lasting_effect(self, data, self.year_idx()).hint
    }

    /// The rise of the hint chance that the card behind a person brings.
    fn hint_bonus(&self, card_id: Option<u32>) -> (b: i32)
        requires
            forall|d: int| 0 <= d < self.base.deck@.len() ==> (#[trigger] self.base.deck@[d]).ranked(),
        ensures
            b == hint_bonus_of(self.base.deck@, card_id),
    {
        match card_id {
            Some(cid) => match self.deck_index_of_card(cid) {
                Some(d) => self.base.deck[d].card_value().hint_prob_increase,
                None => 0,
            },
            None => 0,
        }
    }

    /// Shows or hides the hint of a person.
    pub fn set_person_hint(&mut self, i: usize, hint: bool)
        requires
            i < old(self).persons@.len(),
        ensures
            final(self).persons@ == old(self).persons@.update(
                i as int,
                (BasePerson { is_hint: hint, ..old(self).persons@[i as int] }),
            ),
            *final(self) == (RamenGame { persons: final(self).persons, ..*old(self) }),
    {
        let mut p: BasePerson = self.persons[i];
        p.set_hint(hint);
        self.persons.set(i, p);
    }

    /// Shows the hint of every card at one training.
    fn hint_row(&mut self, train: usize)
        requires
            train < old(self).base.distribution@.len(),
        ensures
            final(self).persons@.len() == old(self).persons@.len(),
            forall|j: int|
                0 <= j < old(self).persons@.len() ==> #[trigger] final(self).persons@[j] == if old(self).persons@[j].person_type == PersonType::Card && j <= i32::MAX && old(self).row(
                    train as int,
                ).contains(j as i32) {
                    BasePerson { is_hint: true, ..old(self).persons@[j] }
                } else {
                    old(self).persons@[j]
                },
            *final(self) == (RamenGame { persons: final(self).persons, ..*old(self) }),
    {
        let mut k: usize = 0;
        let ghost row = self.row(train as int);
        let ghost before = self.persons@;
        while k < self.base.distribution[train].len()
            invariant
                train < self.base.distribution@.len(),
                row == self.base.distribution@[train as int]@,
                k <= row.len(),
                before == old(self).persons@,
                self.persons@.len() == before.len(),
                forall|j: int|
                    0 <= j < before.len() ==> #[trigger] self.persons@[j] == if before[j].person_type
                        == PersonType::Card && j <= i32::MAX && row.take(k as int).contains(
                        j as i32,
                    ) {
                        BasePerson { is_hint: true, ..before[j] }
                    } else {
                        before[j]
                    },
                *self == (RamenGame { persons: self.persons, ..*old(self) }),
            decreases row.len() - k,
        {
            let ghost now = self.persons@;
            let p: i32 = self.base.distribution[train][k];
            assert(row[k as int] == p);
            assert forall|x: i32| #[trigger] row.take(k as int + 1).contains(x) == (row.take(
                k as int,
            ).contains(x) || x == p) by {
                let a = row.take(k as int);
                let b = row.take(k as int + 1);
                assert(b =~= a.push(p));
                if a.contains(x) {
                    let m = choose|m: int| 0 <= m < a.len() && a[m] == x;
                    assert(b[m] == x);
                }
                if x == p {
                    assert(b[k as int] == x);
                }
                if b.contains(x) {
                    let m = choose|m: int| 0 <= m < b.len() && b[m] == x;
                    if m < a.len() {
                        assert(a[m] == x);
                    }
                }
            }
            if p >= 0 && (p as usize) < self.persons.len() {
                match self.persons[p as usize].person_type {
                    PersonType::Card => {
                        self.set_person_hint(p as usize, true);
                    },
                    _ => {},
                }
            }
            k = k + 1;
        }
        assert(row.take(row.len() as int) =~= row);
    }

    /// Shows the hint of every card that stands at one of the given trainings.
    pub fn force_hints(&mut self, trains: &Vec<i32>)
        requires
            old(self).base.distribution@.len() <= i32::MAX,
        ensures
            final(self).persons@.len() == old(self).persons@.len(),
            forall|j: int|
                0 <= j < old(self).persons@.len() ==> #[trigger] final(self).persons@[j] == if old(self).persons@[j].person_type == PersonType::Card && j <= i32::MAX && stands_covered(
                    old(self).seats(),
                    trains@,
                    j,
                    old(self).seats().len() as int,
                ) {
                    BasePerson { is_hint: true, ..old(self).persons@[j] }
                } else {
                    old(self).persons@[j]
                },
            *final(self) == (RamenGame { persons: final(self).persons, ..*old(self) }),
    {
        let ghost before = self.persons@;
        let ghost s = self.seats();
        let mut t: usize = 0;
        while t < self.base.distribution.len()
            invariant
                self.base.distribution@.len() <= i32::MAX,
                self.base == old(self).base,
                s == self.seats(),
                s == old(self).seats(),
                t <= s.len(),
                before == old(self).persons@,
                self.persons@.len() == before.len(),
                forall|j: int|
                    0 <= j < before.len() ==> #[trigger] self.persons@[j] == if before[j].person_type
                        == PersonType::Card && j <= i32::MAX && stands_covered(
                        s,
                        trains@,
                        j,
                        t as int,
                    ) {
                        BasePerson { is_hint: true, ..before[j] }
                    } else {
                        before[j]
                    },
                *self == (RamenGame { persons: self.persons, ..*old(self) }),
            decreases s.len() - t,
        {
            let ghost now = self.persons@;
            let hit: bool = holds(trains, t as i32);
            if hit {
                self.hint_row(t);
            }
            assert forall|j: int| stands_covered(s, trains@, j, t + 1) == (#[trigger] stands_covered(
                s,
                trains@,
                j,
                t as int,
            ) || (hit && s[t as int].contains(j as i32))) by {
                if stands_covered(s, trains@, j, t + 1) {
                    let u = choose|u: int|
                        0 <= u < t + 1 && trains@.contains(u as i32) && (#[trigger] s[u]).contains(
                            j as i32,
                        );
                    if u < t {
                        assert(s[u].contains(j as i32));
                    }
                }
                if stands_covered(s, trains@, j, t as int) {
                    let u = choose|u: int|
                        0 <= u < t && trains@.contains(u as i32) && (#[trigger] s[u]).contains(
                            j as i32,
                        );
                    assert(s[u].contains(j as i32));
                }
            }
            assert forall|j: int| 0 <= j < before.len() implies #[trigger] self.persons@[j] == if before[j].person_type
                == PersonType::Card && j <= i32::MAX && stands_covered(
                s,
                trains@,
                j,
                t + 1,
            ) {
                BasePerson { is_hint: true, ..before[j] }
            } else {
                before[j]
            } by {
                assert(now[j].person_type == before[j].person_type);
            }
            t = t + 1;
        }
    }

    /// Draws for every card whether a hint shows. With a bowl that brings the hidden hint, every
    /// card at the trainings that it covers shows one.
    pub fn distribute_hint(&mut self, data: &RamenScenarioData, cons: &GameConstants, rng: &mut StdRng)
        requires
            data.complete(),
            old(self).base.distribution@.len() <= i32::MAX,
            forall|d: int|
                0 <= d < old(self).base.deck@.len() ==> (#[trigger] old(self).base.deck@[d]).ranked(),
            forall|j: int|
                0 <= j < old(self).persons@.len() && (#[trigger] old(self).persons@[j]).person_type
                    == PersonType::Card ==> hint_chance_ok(old(self), data, cons, old(self).persons@[j]),
        ensures
            final(self).persons@.len() == old(self).persons@.len(),
            forall|j: int|
                0 <= j < old(self).persons@.len() ==> hint_drawn(
                    old(self),
                    data,
                    cons,
                    j,
                    #[trigger] final(self).persons@[j],
                ),
            *final(self) == (RamenGame { persons: final(self).persons, ..*old(self) }),
    {
        let pct: i32 = self.calc_hint_bonus_pct(data);
        let ghost before = self.persons@;
        let mut i: usize = 0;
        while i < self.persons.len()
            invariant
                i <= before.len(),
                before == old(self).persons@,
                self.persons@.len() == before.len(),
                self.base == old(self).base,
                self.ramen == old(self).ramen,
                    pct == lasting_effect(
                    data,
                    old(self).ramen.rmj_results@,
                    old(self).ramen.scenario_pt as int,
                    year_of(old(self).base.turn as int) - 1,
                ).hint,
                forall|d: int|
                    0 <= d < self.base.deck@.len() ==> (#[trigger] self.base.deck@[d]).ranked(),
                forall|j: int|
                    0 <= j < before.len() && (#[trigger] before[j]).person_type == PersonType::Card
                        ==> hint_chance_ok(old(self), data, cons, before[j]),
                forall|j: int|
                    0 <= j < i ==> hint_rolled(old(self), data, cons, j, #[trigger] self.persons@[j]),
                forall|j: int| i <= j < before.len() ==> #[trigger] self.persons@[j] == before[j],
                *self == (RamenGame { persons: self.persons, ..*old(self) }),
            decreases before.len() - i,
        {
            match self.persons[i].person_type {
                PersonType::Card => {
                    let bonus: i32 = self.hint_bonus(self.persons[i].card_id);
                    assert(hint_chance_ok(old(self), data, cons, before[i as int]));
                    let x: i64 = 100 + bonus as i64;
                    let y: i64 = 100 + pct as i64;
                    proof {
                        lemma_odds_product(cons.base_hint_rate as int, x as int, y as int);
                    }
                    let odds: i128 = cons.base_hint_rate as i128 * x as i128 * y as i128;
                    let hint: bool = draw_ratio(odds as u32, 100_000_000, rng);
                    self.set_person_hint(i, hint);
                },
                _ => {},
            }
            i = i + 1;
        }
        let ghost rolled = self.persons@;
        if self.calc_hint_special_active(data, self.ramen.current_ramen) {
            let trains: Vec<i32> = self.calc_hint_special_at_trains(data, self.ramen.current_ramen);
            self.force_hints(&trains);
        }
        assert forall|j: int| 0 <= j < before.len() implies hint_drawn(
            old(self),
            data,
            cons,
            j,
            #[trigger] self.persons@[j],
        ) by {
            assert(hint_rolled(old(self), data, cons, j, rolled[j]));
        }
    }
}

proof fn lemma_odds_product(a: int, b: int, c: int)
    requires
        -0x8000_0000 <= a <= 0x8000_0000,
        -0x1_0000_0000 <= b <= 0x1_0000_0000,
        -0x1_0000_0000 <= c <= 0x1_0000_0000,
    ensures
        -0x8000_0000_0000_0000 <= a * b <= 0x8000_0000_0000_0000,
        -0x8000_0000_0000_0000_0000_0000 <= a * b * c <= 0x8000_0000_0000_0000_0000_0000,
{
    let ab = a * b;
    assert(-0x8000_0000_0000_0000 <= ab <= 0x8000_0000_0000_0000) by (nonlinear_arith)
        requires
            -0x8000_0000 <= a <= 0x8000_0000,
            -0x1_0000_0000 <= b <= 0x1_0000_0000,
            ab == a * b,
    ;
    assert(-0x8000_0000_0000_0000_0000_0000 <= ab * c <= 0x8000_0000_0000_0000_0000_0000)
        by (nonlinear_arith)
        requires
            -0x8000_0000_0000_0000 <= ab <= 0x8000_0000_0000_0000,
            -0x1_0000_0000 <= c <= 0x1_0000_0000,
    ;
}

/// The chance of a hint on a card is a chance.
pub open spec fn hint_chance_ok(
    game: &RamenGame,
    data: &RamenScenarioData,
    cons: &GameConstants,
    person: BasePerson,
) -> bool {
    0 <= hint_odds(game, data, cons, person) <= 100_000_000
}

/// A person once hints have been drawn: only cards are drawn for, impossible hints do not show,
/// certain ones do.
pub open spec fn hint_rolled(
    game: &RamenGame,
    data: &RamenScenarioData,
    cons: &GameConstants,
    j: int,
    after: BasePerson,
) -> bool {
    let p = game.persons@[j];
    if p.person_type == PersonType::Card {
        &&& after == (BasePerson { is_hint: after.is_hint, ..p })
        &&& hint_odds(game, data, cons, p) == 0 ==> !after.is_hint
        &&& hint_odds(game, data, cons, p) == 100_000_000 ==> after.is_hint
    } else {
        after == p
    }
}

/// A card to which the hidden hint applies.
pub open spec fn hint_forced(game: &RamenGame, data: &RamenScenarioData, j: int) -> bool {
    &&& game.persons@[j].person_type == PersonType::Card
    &&& j <= i32::MAX
    &&& hint_special(game, data, game.ramen.current_ramen)
    &&& game.ramen.current_ramen->0 < data.ramen_region_effect@.len()
    &&& stands_covered(
        game.seats(),
        data.ramen_region_effect@[game.ramen.current_ramen->0 as int].at_trains@,
        j,
        game.seats().len() as int,
    )
}

/// A person once all is decided: the hidden hint shows wherever it applies, otherwise the draw
/// counts.
pub open spec fn hint_drawn(
    game: &RamenGame,
    data: &RamenScenarioData,
    cons: &GameConstants,
    j: int,
    after: BasePerson,
) -> bool {
    if hint_forced(game, data, j) {
        after == (BasePerson { is_hint: true, ..game.persons@[j] })
    } else {
        hint_rolled(game, data, cons, j, after)
    }
}

/// The hidden hint needs a bowl, a year whose bowls bring it, and at least four of the seven kinds of
/// cards in the deck.
pub proof fn law_hidden_hint_needs_a_varied_deck(
    game: &RamenGame,
    data: &RamenScenarioData,
    ramen: Option<usize>,
)
    requires
        data.ramen_basic_effect@.len() >= 3,
    ensures
        hint_special(game, data, ramen) <==> {
            let held = |i: int|
                if game.card_type_count@[i] > 0 {
                    1int
                } else {
                    0
                };
            &&& ramen is Some
            &&& held(0) + held(1) + held(2) + held(3) + held(4) + held(5) + held(6) >= 4
            &&& game.base.turn <= 23 ==> data.ramen_basic_effect@[0].hint_special
            &&& 24 <= game.base.turn <= 47 ==> data.ramen_basic_effect@[1].hint_special
            &&& 48 <= game.base.turn ==> data.ramen_basic_effect@[2].hint_special
        },
{
    reveal_with_fuel(kinds_held, 8);
}

/// The hidden hint works only at the trainings that the bowl's region covers.
pub proof fn law_hidden_hint_stays_with_the_region(
    game: &RamenGame,
    data: &RamenScenarioData,
    train: usize,
    ramen: usize,
)
    requires
        ramen < data.ramen_region_effect@.len(),
    ensures
        hint_special_at(game, data, train, Some(ramen)) ==> exists|i: int|
            0 <= i < data.ramen_region_effect@[ramen as int].at_trains@.len()
                && #[trigger] data.ramen_region_effect@[ramen as int].at_trains@[i] == train as i32,
        hint_special_at(game, data, train, Some(ramen)) ==> hint_special(game, data, Some(ramen)),
        !hint_special_at(game, data, train, None),
{
}

/// Hints are drawn for cards alone: everyone else stays as they were, and of a card nothing but the
/// hint changes. A card at a training that the eaten bowl covers shows one for certain where the
/// hidden hint works; with no chance at all none shows.
pub proof fn law_hints_are_for_cards(
    game: &RamenGame,
    data: &RamenScenarioData,
    cons: &GameConstants,
    j: int,
    after: BasePerson,
    train: int,
    r: usize,
)
    requires
        0 <= j < game.persons@.len() <= i32::MAX,
        hint_drawn(game, data, cons, j, after),
        0 <= train < game.base.distribution@.len() <= i32::MAX,
    ensures
        game.persons@[j].person_type != PersonType::Card ==> after == game.persons@[j],
        after.friendship == game.persons@[j].friendship,
        after.train_type == game.persons@[j].train_type,
        after.person_type == game.persons@[j].person_type,
        after.card_id == game.persons@[j].card_id,
        game.persons@[j].person_type == PersonType::Card && game.ramen.current_ramen == Some(r) && r
            < data.ramen_region_effect@.len() && hint_special(game, data, Some(r))
            && data.ramen_region_effect@[r as int].at_trains@.contains(train as i32)
            && game.base.distribution@[train]@.contains(j as i32) ==> after.is_hint,
        game.ramen.current_ramen is None && cons.base_hint_rate == 0 && game.persons@[j].person_type
            == PersonType::Card ==> !after.is_hint,
{
    assert(game.seats()[train] == game.base.distribution@[train]@);
    let bonus = 100 + hint_bonus_of(game.base.deck@, game.persons@[j].card_id);
    let pct = 100 + lasting_effect(
        data,
        game.ramen.rmj_results@,
        game.ramen.scenario_pt as int,
        year_of(game.base.turn as int) - 1,
    ).hint;
    assert(0 * bonus * pct == 0) by (nonlinear_arith);
}

/// The chance of a hint is the general rate, raised by the card's own bonus and by that of the
/// scenario, each in percent.
pub proof fn law_hint_chance(
    game: &RamenGame,
    data: &RamenScenarioData,
    cons: &GameConstants,
    person: BasePerson,
    d: int,
    pct: int,
)
    requires
        0 <= d < game.base.deck@.len(),
        person.card_id == Some(game.base.deck@[d].card_id),
        forall|j: int|
            0 <= j < d ==> (#[trigger] game.base.deck@[j]).card_id != game.base.deck@[d].card_id,
        pct == lasting_effect(
            data,
            game.ramen.rmj_results@,
            game.ramen.scenario_pt as int,
            year_of(game.base.turn as int) - 1,
        ).hint,
    ensures
        ({
            let card = game.base.deck@[d];
            let own = card.data.card_value@[card.rank as int].hint_prob_increase;
            hint_odds(game, data, cons, person) == cons.base_hint_rate * (100 + own) * (100 + pct)
        }),
{
    lemma_place_is_first(game.base.deck@, game.base.deck@[d].card_id, 0, d);
}

/// The trainings of a bowl are those of its region, none without a bowl or for a region that does not
/// exist.
pub proof fn law_trainings_of_a_bowl(data: &RamenScenarioData, r: usize)
    ensures
        bowl_trains(data, None).len() == 0,
        r < data.ramen_region_effect@.len() ==> bowl_trains(data, Some(r))
            == data.ramen_region_effect@[r as int].at_trains@,
        r >= data.ramen_region_effect@.len() ==> bowl_trains(data, Some(r)).len() == 0,
{
}

} // verus!
