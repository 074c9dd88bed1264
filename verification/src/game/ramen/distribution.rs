use rand::rngs::StdRng;
use vstd::prelude::*;
use super::RamenGame;
use crate::error::SimError;
use crate::game::base::person::{friendly, BasePerson, Person, PersonType};
use crate::game::base::state::{seats, BaseGame};
use crate::game::support_card::{
    effect_computable,
    law_contribution_ignores_what_was_kept,
    same_card,
    same_cards,
    training_effect,
    CardTrainingEffect,
    SupportCard,
};
use crate::lists::{holds, lemma_filter_start, lemma_filter_step};
use crate::rng::{draw_ratio, draw_uniform};

verus! {

/// A position at a training stands for one of the persons.
pub open spec fn known(persons: Seq<BasePerson>, p: i32) -> bool {
    0 <= p < persons.len()
}

/// A friend, a group, the reporter or the director stands at that position.
pub open spec fn friend_at(persons: Seq<BasePerson>, p: i32) -> bool {
    friendly(persons[p as int].person_type, persons[p as int].train_type as int)
}

/// A training can take a person: it is not full, the person is not there yet, and it takes one
/// friend at most.
pub open spec fn seat_free(persons: Seq<BasePerson>, row: Seq<i32>, p: i32) -> bool {
    &&& row.len() < 5
    &&& !row.contains(p)
    &&& friend_at(persons, p) ==> forall|k: int| 0 <= k < row.len() ==> !friend_at(persons, #[trigger] row[k])
}

/// A training is in order: five persons at most, nobody twice, one friend at most.
pub open spec fn row_ok(persons: Seq<BasePerson>, row: Seq<i32>) -> bool {
    &&& row.len() <= 5
    &&& row.no_duplicates()
    &&& forall|k: int| 0 <= k < row.len() ==> known(persons, #[trigger] row[k])
    &&& forall|a: int, b: int|
        0 <= a < b < row.len() ==> !(friend_at(persons, #[trigger] row[a]) && friend_at(
            persons,
            #[trigger] row[b],
        ))
}

/// All five trainings are in order.
pub open spec fn well_seated(persons: Seq<BasePerson>, seats: Seq<Seq<i32>>) -> bool {
    &&& seats.len() == 5
    &&& forall|t: int| 0 <= t < 5 ==> row_ok(persons, #[trigger] seats[t])
}

/// A person stands at some training.
pub open spec fn present(seats: Seq<Seq<i32>>, p: i32) -> bool {
    exists|t: int| 0 <= t < seats.len() && (#[trigger] seats[t]).contains(p)
}

/// Seating a person where there is room keeps the trainings in order.
pub proof fn law_seating_keeps_order(persons: Seq<BasePerson>, s: Seq<Seq<i32>>, p: i32, t: int)
    requires
        well_seated(persons, s),
        known(persons, p),
        0 <= t < 5,
        seat_free(persons, s[t], p),
    ensures
        well_seated(persons, s.update(t, s[t].push(p))),
{
    let row = s[t];
    let next = row.push(p);
    assert(row_ok(persons, row));
    assert(row_ok(persons, next)) by {
        assert forall|a: int, b: int| 0 <= a < b < next.len() implies next[a] != next[b] by {
            if b == row.len() {
                assert(row.contains(row[a]));
            }
        }
        assert forall|a: int, b: int| 0 <= a < b < next.len() implies !(friend_at(
            persons,
            #[trigger] next[a],
        ) && friend_at(persons, #[trigger] next[b])) by {
            if b == row.len() {
                assert(next[a] == row[a]);
            } else {
                assert(next[a] == row[a] && next[b] == row[b]);
            }
        }
        assert forall|k: int| 0 <= k < next.len() implies known(persons, #[trigger] next[k]) by {
            if k < row.len() {
                assert(known(persons, row[k]));
            }
        }
    }
}

/// The weight with which a person stays away. Cards and friends stay away less often as the drop
/// rises, director and reporter do not, and bystanders always come.
pub open spec fn absent_weight_of(kind: PersonType, drop: int) -> int {
    match kind {
        PersonType::Card => 50 - drop,
        PersonType::Yayoi => 200,
        PersonType::Reporter => 200,
        PersonType::Npc => 0,
        _ => 100 - drop,
    }
}

/// Weights added up from the first.
pub open spec fn weight_upto(weights: Seq<i32>, n: int) -> int
    decreases n,
{
    if n <= 0 {
        0
    } else {
        weight_upto(weights, n - 1) + weights[n - 1]
    }
}

/// The training into whose share of the weights a number falls; the last if it falls into none.
pub open spec fn bucket(weights: Seq<i32>, chosen: int, from: int) -> int
    decreases 5 - from,
{
    if from >= 5 {
        4
    } else if chosen < weight_upto(weights, from + 1) {
        from
    } else {
        bucket(weights, chosen, from + 1)
    }
}

/// The weights can be added up from the first.
pub open spec fn weights_fit(weights: Seq<i32>) -> bool {
    forall|n: int| 0 <= n <= 5 ==> i32::MIN <= #[trigger] weight_upto(weights, n) <= i32::MAX
}

/// The training into whose share of the weights a number falls.
pub fn bucket_of(weights: &[i32; 5], chosen: i32) -> (b: usize)
    requires
        weights_fit(weights@),
    ensures
        b == bucket(weights@, chosen as int, 0),
        b < 5,
{
    let mut acc: i32 = 0;
    let mut i: usize = 0;
    while i < 5
        invariant
            i <= 5,
            weights_fit(weights@),
            acc == weight_upto(weights@, i as int),
            bucket(weights@, chosen as int, 0) == bucket(weights@, chosen as int, i as int),
        decreases 5 - i,
    {
        assert(weight_upto(weights@, i as int + 1) == acc + weights@[i as int]);
        acc = acc + weights[i];
        if chosen < acc {
            return i;
        }
        i = i + 1;
    }
    4
}

/// A number below the total falls into a share of positive weight.
pub proof fn law_zero_weight_is_never_drawn(weights: Seq<i32>, chosen: int, from: int)
    requires
        weights.len() == 5,
        0 <= from < 5,
        weight_upto(weights, from) <= chosen < weight_upto(weights, 5),
    ensures
        from <= bucket(weights, chosen, from) < 5,
        weights[bucket(weights, chosen, from)] > 0,
        weight_upto(weights, bucket(weights, chosen, from)) <= chosen < weight_upto(
            weights,
            bucket(weights, chosen, from) + 1,
        ),
    decreases 5 - from,
{
    if chosen >= weight_upto(weights, from + 1) {
        if from < 4 {
            law_zero_weight_is_never_drawn(weights, chosen, from + 1);
        }
    }
}

/// Draws a training by weights.
///
/// Refused where the weights do not add up to more than zero.
pub fn sample_bucket(weights: &[i32; 5], rng: &mut StdRng) -> (r: Result<usize, SimError>)
    requires
        weights_fit(weights@),
    ensures
        match r {
            Ok(b) => exists|chosen: int|
                0 <= chosen < weight_upto(weights@, 5) && b == #[trigger] bucket(
                    weights@,
                    chosen,
                    0,
                ),
            Err(e) => e == SimError::EmptyWeights,
        },
        r is Ok <==> weight_upto(weights@, 5) > 0,
        r matches Ok(b) ==> b < 5 && weights@[b as int] > 0,
{
    let mut total: i32 = 0;
    let mut i: usize = 0;
    while i < 5
        invariant
            i <= 5,
            weights_fit(weights@),
            total == weight_upto(weights@, i as int),
        decreases 5 - i,
    {
        assert(weight_upto(weights@, i as int + 1) == total + weights@[i as int]);
        total = total + weights[i];
        i = i + 1;
    }
    match draw_uniform(total, rng) {
        Ok(chosen) => {
            let b: usize = bucket_of(weights, chosen);
            proof {
                law_zero_weight_is_never_drawn(weights@, chosen as int, 0);
            }
            assert(b == bucket(weights@, chosen as int, 0));
            Ok(b)
        },
        Err(_) => Err(SimError::EmptyWeights),
    }
}

/// A person would make a training a friendship training: a card at its own training once the bond
/// has reached eighty, the scenario's friend while the group is enthusiastic.
pub open spec fn shines(persons: Seq<BasePerson>, group_buff: bool, p: int, train: int) -> bool {
    &&& 0 <= p < persons.len()
    &&& match persons[p].person_type {
        PersonType::Card => persons[p].train_type == train && persons[p].friendship >= 80,
        PersonType::ScenarioCard => group_buff,
        _ => false,
    }
}

/// A person can come to the trainings on a turn.
pub open spec fn available_on(kind: PersonType, turn: int) -> bool {
    match kind {
        PersonType::ScenarioCard => turn >= 2,
        PersonType::Reporter => turn >= 12,
        _ => true,
    }
}

/// The position in the deck of the card with a number.
pub open spec fn deck_position(deck: Seq<SupportCard>, card_id: u32, from: int) -> Option<int>
    decreases deck.len() - from,
{
    if from >= deck.len() {
        None
    } else if deck[from].card_id == card_id {
        Some(from)
    } else {
        deck_position(deck, card_id, from + 1)
    }
}

/// A position that is found lies in the deck and holds the card.
pub proof fn lemma_deck_position(deck: Seq<SupportCard>, card_id: u32, from: int)
    requires
        0 <= from,
    ensures
        deck_position(deck, card_id, from) matches Some(d) ==> from <= d < deck.len()
            && deck[d].card_id == card_id,
    decreases deck.len() - from,
{
    if from < deck.len() && deck[from].card_id != card_id {
        lemma_deck_position(deck, card_id, from + 1);
    }
}

/// A person counts for a training: everyone but director and reporter.
pub open spec fn counts(persons: Seq<BasePerson>, p: i32) -> bool {
    &&& known(persons, p)
    &&& persons[p as int].person_type != PersonType::Yayoi
    &&& persons[p as int].person_type != PersonType::Reporter
}

/// A person of a kind stands at a position.
pub open spec fn is_kind(persons: Seq<BasePerson>, p: i32, kind: PersonType) -> bool {
    known(persons, p) && persons[p as int].person_type == kind
}

/// A person without a hint.
pub open spec fn unhinted(p: BasePerson) -> BasePerson {
    BasePerson { is_hint: false, ..p }
}

/// Persons without hints.
pub open spec fn all_unhinted(persons: Seq<BasePerson>) -> Seq<BasePerson> {
    Seq::new(persons.len(), |i: int| unhinted(persons[i]))
}

impl RamenGame {
    /// The persons at each training.
    pub open spec fn seats(&self) -> Seq<Seq<i32>> {
        seats(self.base.distribution@)
    }

    /// The group is enthusiastic.
    pub open spec fn group_buff(&self) -> bool {
        self.base.friend.group_buff_turn > 0
    }

    /// The persons at a training; nobody where trainings have not been set up.
    pub open spec fn row(&self, train: int) -> Seq<i32> {
        if 0 <= train < self.base.distribution@.len() {
            self.base.distribution@[train]@
        } else {
            Seq::empty()
        }
    }

    /// How many persons of a kind stand at a training.
    pub open spec fn kind_count(&self, train: int, kind: PersonType) -> nat {
        self.row(train).filter(|p: i32| is_kind(self.persons@, p, kind)).len()
    }

    /// The persons that make a training a friendship training.
    pub open spec fn shining(&self, train: int) -> Seq<i32> {
        let persons = self.persons@;
        let buff = self.group_buff();
        self.row(train).filter(|p: i32| shines(persons, buff, p as int, train))
    }

    /// The weight with which a person stays away.
    pub fn absent_weight(&self, person_index: usize) -> (w: i32)
        requires
            person_index < self.persons@.len(),
            self.base.absent_rate_drop >= 100 - i32::MAX,
        ensures
            w == absent_weight_of(
                self.persons@[person_index as int].person_type,
                self.base.absent_rate_drop as int,
            ),
    {
        match self.persons[person_index].person_type {
            PersonType::Card => 50 - self.base.absent_rate_drop,
            PersonType::Yayoi => 200,
            PersonType::Reporter => 200,
            PersonType::Npc => 0,
            _ => 100 - self.base.absent_rate_drop,
        }
    }

    /// Whether a person can come to the trainings this turn.
    pub fn person_is_available(&self, person_index: usize) -> (b: bool)
        requires
            person_index < self.persons@.len(),
        ensures
            b == available_on(
                self.persons@[person_index as int].person_type,
                self.base.turn as int,
            ),
    {
        match self.persons[person_index].person_type {
            PersonType::ScenarioCard => self.base.turn >= 2,
            PersonType::Reporter => self.base.turn >= 12,
            _ => true,
        }
    }

    /// Whether the group is enthusiastic.
    pub fn has_group_buff(&self) -> (b: bool)
        ensures
            b == self.group_buff(),
    {
        self.base.friend.group_buff_turn > 0
    }

    /// Whether a person would make a training a friendship training.
    pub fn is_shining_at(&self, person_index: usize, train: usize) -> (b: bool)
        ensures
            b == shines(self.persons@, self.group_buff(), person_index as int, train as int),
    {
        if person_index >= self.persons.len() {
            return false;
        }
        let person: BasePerson = self.persons[person_index];
        match person.person_type {
            PersonType::Card => person.train_type >= 0 && person.train_type as usize == train
                && person.friendship >= 80,
            PersonType::ScenarioCard => self.has_group_buff(),
            _ => false,
        }
    }

    /// How many persons make a training a friendship training.
    pub fn shining_count(&self, train: usize) -> (n: usize)
        ensures
            n == self.shining(train as int).len(),
    {
        let ghost persons = self.persons@;
        let ghost buff = self.group_buff();
        let ghost pred = |p: i32| shines(persons, buff, p as int, train as int);
        if train >= self.base.distribution.len() {
            proof {
                lemma_filter_start(self.row(train as int), pred);
                assert(self.row(train as int).take(0) =~= self.row(train as int));
            }
            return 0;
        }
        let row: &Vec<i32> = &self.base.distribution[train];
        let mut n: usize = 0;
        let mut i: usize = 0;
        proof {
            lemma_filter_start(row@, pred);
        }
        while i < row.len()
            invariant
                i <= row@.len(),
                n <= i,
                persons == self.persons@,
                buff == self.group_buff(),
                pred == (|p: i32| shines(persons, buff, p as int, train as int)),
                n == row@.take(i as int).filter(pred).len(),
            decreases row@.len() - i,
        {
            let p: i32 = row[i];
            proof {
                lemma_filter_step(row@, pred, i as int);
            }
            if p >= 0 && self.is_shining_at(p as usize, train) {
                n = n + 1;
            }
            i = i + 1;
        }
        assert(row@.take(row@.len() as int) =~= row@);
        n
    }

    /// The position in the deck of the card behind a person. Positions of persons and cards differ:
    /// persons without a card stand among the others.
    pub fn deck_index_of(&self, person_index: usize) -> (r: Option<usize>)
        ensures
            match r {
                Some(d) => {
                    &&& person_index < self.persons@.len()
                    &&& self.persons@[person_index as int].card_id matches Some(cid)
                    &&& deck_position(self.base.deck@, cid, 0) == Some(d as int)
                    &&& d < self.base.deck@.len()
                    &&& self.base.deck@[d as int].card_id == cid
                },
                None => person_index < self.persons@.len() ==> match self.persons@[person_index as int].card_id {
                    Some(cid) => deck_position(self.base.deck@, cid, 0) is None,
                    None => true,
                },
            },
    {
        if person_index >= self.persons.len() {
            return None;
        }
        match self.persons[person_index].card_id {
            Some(cid) => self.deck_index_of_card(cid),
            None => None,
        }
    }

    /// The position in the deck of the card with a number; the first, if there are several.
    pub fn deck_index_of_card(&self, card_id: u32) -> (r: Option<usize>)
        ensures
            match r {
                Some(d) => {
                    &&& deck_position(self.base.deck@, card_id, 0) == Some(d as int)
                    &&& d < self.base.deck@.len()
                    &&& self.base.deck@[d as int].card_id == card_id
                },
                None => deck_position(self.base.deck@, card_id, 0) is None,
            },
    {
        let mut i: usize = 0;
        while i < self.base.deck.len()
            invariant
                i <= self.base.deck@.len(),
                deck_position(self.base.deck@, card_id, 0) == deck_position(
                    self.base.deck@,
                    card_id,
                    i as int,
                ),
            decreases self.base.deck@.len() - i,
        {
            if self.base.deck[i].card_id == card_id {
                return Some(i);
            }
            i = i + 1;
        }
        None
    }

    /// How many persons raise what a training gives, clones included.
    pub fn count_training_persons(&self, train: usize) -> (n: usize)
        ensures
            n == self.row(train as int).filter(|p: i32| counts(self.persons@, p)).len(),
    {
        let ghost persons = self.persons@;
        let ghost pred = |p: i32| counts(self.persons@, p);
        if train >= self.base.distribution.len() {
            proof {
                lemma_filter_start(self.row(train as int), pred);
                assert(self.row(train as int).take(0) =~= self.row(train as int));
            }
            return 0;
        }
        let row: &Vec<i32> = &self.base.distribution[train];
        let mut n: usize = 0;
        let mut i: usize = 0;
        proof {
            lemma_filter_start(row@, pred);
        }
        while i < row.len()
            invariant
                i <= row@.len(),
                n <= i,
                pred == (|p: i32| counts(self.persons@, p)),
                n == row@.take(i as int).filter(pred).len(),
            decreases row@.len() - i,
        {
            let p: i32 = row[i];
            proof {
                lemma_filter_step(row@, pred, i as int);
            }
            if p >= 0 && (p as usize) < self.persons.len() {
                match self.persons[p as usize].person_type {
                    PersonType::Yayoi => {},
                    PersonType::Reporter => {},
                    _ => {
                        n = n + 1;
                    },
                }
            }
            i = i + 1;
        }
        assert(row@.take(row@.len() as int) =~= row@);
        n
    }

    /// How many persons of a kind stand at a training.
    pub fn count_kind_at(&self, train: usize, kind: PersonType) -> (n: usize)
        ensures
            n == self.kind_count(train as int, kind),
            n <= self.row(train as int).len(),
    {
        let ghost pred = |p: i32| is_kind(self.persons@, p, kind);
        if train >= self.base.distribution.len() {
            proof {
                lemma_filter_start(self.row(train as int), pred);
                assert(self.row(train as int).take(0) =~= self.row(train as int));
            }
            return 0;
        }
        let row: &Vec<i32> = &self.base.distribution[train];
        let mut n: usize = 0;
        let mut i: usize = 0;
        proof {
            lemma_filter_start(row@, pred);
        }
        while i < row.len()
            invariant
                i <= row@.len(),
                n <= i,
                pred == (|p: i32| is_kind(self.persons@, p, kind)),
                n == row@.take(i as int).filter(pred).len(),
            decreases row@.len() - i,
        {
            let p: i32 = row[i];
            proof {
                lemma_filter_step(row@, pred, i as int);
            }
            if p >= 0 && (p as usize) < self.persons.len() && self.persons[p as usize].person_type
                == kind {
                n = n + 1;
            }
            i = i + 1;
        }
        assert(row@.take(row@.len() as int) =~= row@);
        n
    }

    /// For each training, whether a person stands there.
    pub fn at_trains(&self, person_index: i32) -> (out: Vec<bool>)
        ensures
            out@ == Seq::new(self.seats().len(), |t: int| self.seats()[t].contains(person_index)),
    {
        let mut out: Vec<bool> = Vec::new();
        let mut t: usize = 0;
        while t < self.base.distribution.len()
            invariant
                t <= self.base.distribution@.len(),
                out@ == Seq::new(t as nat, |k: int| self.seats()[k].contains(person_index)),
            decreases self.base.distribution@.len() - t,
        {
            let b: bool = holds(&self.base.distribution[t], person_index);
            out.push(b);
            t = t + 1;
            assert(out@ =~= Seq::new(t as nat, |k: int| self.seats()[k].contains(person_index)));
        }
        assert(out@ =~= Seq::new(
            self.seats().len(),
            |k: int| self.seats()[k].contains(person_index),
        ));
        out
    }

    /// Sets up five empty trainings and hides every hint.
    pub fn reset_distribution(&mut self)
        ensures
            final(self).seats() == seq![
                Seq::<i32>::empty(),
                Seq::<i32>::empty(),
                Seq::<i32>::empty(),
                Seq::<i32>::empty(),
                Seq::<i32>::empty(),
            ],
            final(self).persons@ == all_unhinted(old(self).persons@),
            *final(self) == (RamenGame {
                base: BaseGame {
                    distribution: final(self).base.distribution,
                    ..old(self).base
                },
                persons: final(self).persons,
                ..*old(self)
            }),
    {
        let mut rows: Vec<Vec<i32>> = Vec::new();
        rows.push(Vec::new());
        rows.push(Vec::new());
        rows.push(Vec::new());
        rows.push(Vec::new());
        rows.push(Vec::new());
        self.base.distribution = rows;
        assert(self.seats() =~= seq![
            Seq::<i32>::empty(),
            Seq::<i32>::empty(),
            Seq::<i32>::empty(),
            Seq::<i32>::empty(),
            Seq::<i32>::empty(),
        ]);
        let ghost before = old(self).persons@;
        let mut i: usize = 0;
        while i < self.persons.len()
            invariant
                i <= self.persons@.len(),
                before == old(self).persons@,
                self.persons@.len() == before.len(),
                forall|j: int| 0 <= j < i ==> #[trigger] self.persons@[j] == unhinted(before[j]),
                forall|j: int| i <= j < before.len() ==> #[trigger] self.persons@[j] == before[j],
                *self == (RamenGame {
                    base: BaseGame { distribution: rows, ..old(self).base },
                    persons: self.persons,
                    ..*old(self)
                }),
            decreases self.persons@.len() - i,
        {
            let mut p: BasePerson = self.persons[i];
            p.set_hint(false);
            self.persons.set(i, p);
            i = i + 1;
        }
        assert(self.persons@ =~= all_unhinted(before));
    }

    /// Whether a training can take a person.
    pub fn can_seat(&self, person_index: i32, train: usize) -> (b: bool)
        requires
            known(self.persons@, person_index),
            train < self.base.distribution@.len(),
            forall|k: int|
                0 <= k < self.row(train as int).len() ==> known(
                    self.persons@,
                    #[trigger] self.row(train as int)[k],
                ),
        ensures
            b == seat_free(self.persons@, self.row(train as int), person_index),
    {
        let row: &Vec<i32> = &self.base.distribution[train];
        if row.len() >= 5 || holds(row, person_index) {
            return false;
        }
        if self.persons[person_index as usize].is_friend() {
            let mut i: usize = 0;
            assert forall|k: int| 0 <= k < row@.len() implies known(
                self.persons@,
                #[trigger] row@[k],
            ) by {
                assert(known(self.persons@, self.row(train as int)[k]));
            }
            while i < row.len()
                invariant
                    i <= row@.len(),
                    row@ == self.row(train as int),
                    forall|k: int| 0 <= k < row@.len() ==> known(self.persons@, #[trigger] row@[k]),
                    forall|k: int|
                        0 <= k < i ==> !friend_at(self.persons@, #[trigger] row@[k]),
                    known(self.persons@, person_index),
                    friend_at(self.persons@, person_index),
                decreases row@.len() - i,
            {
                assert(known(self.persons@, row@[i as int]));
                if self.persons[row[i] as usize].is_friend() {
                    assert(friend_at(self.persons@, row@[i as int]));
                    return false;
                }
                i = i + 1;
            }
        }
        true
    }

    /// Seats a person at a training.
    pub fn seat(&mut self, person_index: i32, train: usize)
        requires
            train < old(self).base.distribution@.len(),
        ensures
            final(self).seats() == old(self).seats().update(
                train as int,
                old(self).row(train as int).push(person_index),
            ),
            *final(self) == (RamenGame {
                base: BaseGame {
                    distribution: final(self).base.distribution,
                    ..old(self).base
                },
                ..*old(self)
            }),
    {
        let ghost before = self.base.distribution@;
        self.base.distribution[train].push(person_index);
        assert(self.seats() =~= old(self).seats().update(
            train as int,
            old(self).row(train as int).push(person_index),
        ));
    }

    /// Records that a person stays away this turn.
    pub fn record_absent_person(&mut self, person_index: i32)
        ensures
            final(self).ramen.absent_cards@ == old(self).ramen.absent_cards@.push(person_index),
            *final(self) == (RamenGame {
                ramen: super::RamenState {
                    absent_cards: final(self).ramen.absent_cards,
                    ..old(self).ramen
                },
                ..*old(self)
            }),
    {
        self.ramen.absent_cards.push(person_index);
    }
}

/// Where the card behind a person is in the deck; nowhere for persons without a card.
pub open spec fn card_place(persons: Seq<BasePerson>, deck: Seq<SupportCard>, p: i32) -> Option<int> {
    if known(persons, p) {
        match persons[p as int].card_id {
            Some(cid) => deck_position(deck, cid, 0),
            None => None,
        }
    } else {
        None
    }
}

/// The contribution of the card behind a person has been computed anew and is kept with the card.
pub open spec fn card_refreshed(before: RamenGame, deck: Seq<SupportCard>, p: i32) -> bool {
    match card_place(before.persons@, before.base.deck@, p) {
        Some(d) => {
            &&& deck[d].effect.view() == training_effect(
                &before.base.deck@[d],
                before.base.deck@,
                before.shining(0).len() as int,
            )
            &&& deck == before.base.deck@.update(
                d,
                SupportCard { effect: deck[d].effect, is_locked: true, ..before.base.deck@[d] },
            )
        },
        None => deck == before.base.deck@,
    }
}

/// The contributions of all cards can be computed, whether or not the first training is a
/// friendship training.
pub open spec fn deck_ready(deck: Seq<SupportCard>) -> bool {
    forall|d: int|
        0 <= d < deck.len() ==> effect_computable(&#[trigger] deck[d], deck, 0)
            && effect_computable(&deck[d], deck, 1)
}

/// The speciality rate of a person, by whether the first training is a friendship training.
#[derive(Debug, Clone, Copy, PartialEq, Eq, Structural, Default)]
pub struct SpecialityRate {
    /// Without a friendship training.
    pub calm: i32,
    /// With a friendship training.
    pub shining: i32,
}

impl SpecialityRate {
    /// The rate that counts as the trainings stand.
    pub open spec fn at(self, game: RamenGame) -> int {
        if game.shining(0).len() > 0 {
            self.shining as int
        } else {
            self.calm as int
        }
    }

    /// The shares of the trainings can be added up.
    pub open spec fn small(self) -> bool {
        self.calm <= i32::MAX - 500 && self.shining <= i32::MAX - 500
    }

    /// The shares of the trainings add up to more than zero either way.
    pub open spec fn positive(self, speciality: int) -> bool {
        weights_positive(speciality, self.calm as int) && weights_positive(
            speciality,
            self.shining as int,
        )
    }
}

/// The trainings' shares for a person add up to more than zero.
pub open spec fn weights_positive(speciality: int, deyilv: int) -> bool {
    0 <= speciality <= 4 ==> 500 + deyilv > 0
}

/// The share of a training in where a person goes.
pub open spec fn share(speciality: int, deyilv: int, train: int) -> int {
    if train == speciality {
        100 + deyilv
    } else {
        100
    }
}

/// Some training that a person may draw has no room for them.
pub open spec fn turned_away(game: RamenGame, p: i32, deyilv: int) -> bool {
    exists|t: int|
        0 <= t < 5 && share(game.persons@[p as int].train_type as int, deyilv, t) > 0
            && !seat_free(game.persons@, #[trigger] game.row(t), p)
}

/// What can come of sending a person to the trainings: they stay away, which is recorded; they
/// draw trainings without room; or they stand at a training that they may draw and that had room
/// for them. Unless they stay away, the contribution of the card behind someone with a speciality
/// is computed anew.
pub open spec fn sent(
    before: RamenGame,
    after: RamenGame,
    p: i32,
    may_stay_away: bool,
    deyilv: int,
    r: int,
) -> bool {
    &&& after == (RamenGame {
        base: BaseGame {
            distribution: after.base.distribution,
            deck: after.base.deck,
            ..before.base
        },
        ramen: super::RamenState { absent_cards: after.ramen.absent_cards, ..before.ramen },
        ..before
    })
    &&& if after.ramen.absent_cards@ == before.ramen.absent_cards@ {
        rated(before, after.base.deck@, p)
    } else {
        after.base.deck@ == before.base.deck@
    }
    &&& if r >= 0 {
        &&& r < 5
        &&& share(before.persons@[p as int].train_type as int, deyilv, r) > 0
        &&& seat_free(before.persons@, before.row(r), p)
        &&& after.seats() == before.seats().update(r, before.row(r).push(p))
        &&& after.ramen.absent_cards@ == before.ramen.absent_cards@
    } else {
        &&& r == -1
        &&& after.seats() == before.seats()
        &&& if after.ramen.absent_cards@ == before.ramen.absent_cards@ {
            turned_away(before, p, deyilv)
        } else {
            may_stay_away && after.ramen.absent_cards@ == before.ramen.absent_cards@.push(p)
        }
    }
}

/// The contribution of the card behind a person with a speciality has been computed anew.
pub open spec fn rated(before: RamenGame, deck: Seq<SupportCard>, p: i32) -> bool {
    if 0 <= before.persons@[p as int].train_type <= 4 {
        card_refreshed(before, deck, p)
    } else {
        deck == before.base.deck@
    }
}

/// The weight with which a person stays away, if that is allowed at all.
pub open spec fn stay_weight(game: &RamenGame, p: i32, allow_absent: bool) -> int {
    if allow_absent {
        absent_weight_of(
            game.persons@[p as int].person_type,
            game.base.absent_rate_drop as int,
        )
    } else {
        0
    }
}

impl RamenGame {
    /// Every position at the trainings stands for a person.
    pub open spec fn seats_known(&self) -> bool {
        forall|t: int, k: int|
            0 <= t < self.base.distribution@.len() && 0 <= k < self.base.distribution@[t]@.len()
                ==> known(self.persons@, #[trigger] self.base.distribution@[t]@[k])
    }

    /// Computes the contribution of the card behind a person anew and keeps it with the card.
    /// Returns the position of the card.
    pub fn refresh_card(&mut self, person_index: i32) -> (r: Option<usize>)
        requires
            card_place(old(self).persons@, old(self).base.deck@, person_index) matches Some(d)
                ==> effect_computable(
                &old(self).base.deck@[d],
                old(self).base.deck@,
                old(self).shining(0).len() as int,
            ),
        ensures
            match r {
                Some(d) => d < old(self).base.deck@.len() && card_place(
                    old(self).persons@,
                    old(self).base.deck@,
                    person_index,
                ) == Some(d as int),
                None => card_place(old(self).persons@, old(self).base.deck@, person_index) is None,
            },
            card_refreshed(*old(self), final(self).base.deck@, person_index),
            *final(self) == (RamenGame {
                base: BaseGame { deck: final(self).base.deck, ..old(self).base },
                ..*old(self)
            }),
    {
        if person_index < 0 {
            return None;
        }
        let d: usize = match self.deck_index_of(person_index as usize) {
            Some(d) => d,
            None => {
                return None;
            },
        };
        let shining: usize = self.shining_count(0);
        let effect: CardTrainingEffect = self.base.deck[d].calc_training_effect(
            &self.base.deck,
            shining,
        );
        self.base.deck[d].effect = effect;
        self.base.deck[d].is_locked = true;
        assert(self.base.deck@ =~= old(self).base.deck@.update(
            d as int,
            SupportCard { effect, is_locked: true, ..old(self).base.deck@[d as int] },
        ));
        Some(d)
    }

    /// Sends a person to the trainings, given their speciality rate. Whether they stay away is
    /// decided first, without regard to the speciality rate; then up to ten trainings are drawn
    /// until one has room. Returns the training, or minus one.
    ///
    /// Refused where the trainings' shares do not add up to more than zero.
    pub fn distribute_person(
        &mut self,
        person_index: i32,
        allow_absent: bool,
        rate: SpecialityRate,
        rng: &mut StdRng,
    ) -> (r: Result<i32, SimError>)
        requires
            known(old(self).persons@, person_index),
            old(self).base.distribution@.len() >= 5,
            old(self).seats_known(),
            old(self).base.absent_rate_drop >= 100 - i32::MAX,
            deck_ready(old(self).base.deck@),
            rate.small(),
        ensures
            match r {
                Ok(t) => {
                    &&& sent(
                        *old(self),
                        *final(self),
                        person_index,
                        stay_weight(old(self), person_index, allow_absent) > 0,
                        rate.at(*old(self)),
                        t as int,
                    )
                    &&& weights_positive(
                        old(self).persons@[person_index as int].train_type as int,
                        rate.at(*old(self)),
                    ) || final(self).ramen.absent_cards@ != old(self).ramen.absent_cards@
                },
                Err(e) => {
                    &&& e == SimError::EmptyWeights
                    &&& rated(*old(self), final(self).base.deck@, person_index)
                    &&& *final(self) == (RamenGame {
                        base: BaseGame { deck: final(self).base.deck, ..old(self).base },
                        ..*old(self)
                    })
                    &&& !weights_positive(
                        old(self).persons@[person_index as int].train_type as int,
                        rate.at(*old(self)),
                    )
                },
            },
            final(self).seats_known(),
    {
        let speciality: i32 = self.persons[person_index as usize].train_type;
        let absent_rate: i32 = if allow_absent {
            self.absent_weight(person_index as usize)
        } else {
            0
        };
        if absent_rate > 0 {
            let w: u32 = absent_rate as u32;
            if draw_ratio(w, 500 + w, rng) {
                self.record_absent_person(person_index);
                assert(self.ramen.absent_cards@.len() == old(self).ramen.absent_cards@.len() + 1);
                return Ok(-1);
            }
        }
        let mut weights: [i32; 5] = [100, 100, 100, 100, 100];
        let deyilv: i32 = if self.shining_count(0) > 0 {
            rate.shining
        } else {
            rate.calm
        };
        if 0 <= speciality && speciality <= 4 {
            proof {
                lemma_place_ready(*self, person_index);
            }
            let _ = self.refresh_card(person_index);
            weights[speciality as usize] = 100 + deyilv;
        }
        let ghost rated_state = *self;
        proof {
            reveal_with_fuel(weight_upto, 6);
            assert forall|n: int| 0 <= n <= 5 implies i32::MIN <= #[trigger] weight_upto(
                weights@,
                n,
            ) <= i32::MAX by {
                assert(n == 0 || n == 1 || n == 2 || n == 3 || n == 4 || n == 5);
            }
            assert(weight_upto(weights@, 5) == if 0 <= speciality <= 4 {
                500 + deyilv
            } else {
                500
            });
        }
        let mut retries: i32 = 0;
        while retries < 10
            invariant
                0 <= retries <= 10,
                retries > 0 ==> turned_away(*old(self), person_index, deyilv as int) && weight_upto(
                    weights@,
                    5,
                ) > 0,
                forall|t: int|
                    0 <= t < 5 ==> #[trigger] weights@[t] == share(
                        speciality as int,
                        deyilv as int,
                        t,
                    ),
                *self == rated_state,
                self.persons == old(self).persons,
                self.base.distribution == old(self).base.distribution,
                self.ramen == old(self).ramen,
                rated(*old(self), self.base.deck@, person_index),
                *self == (RamenGame {
                    base: BaseGame { deck: self.base.deck, ..old(self).base },
                    ..*old(self)
                }),
                deyilv == rate.at(*old(self)),
                weights_fit(weights@),
                weight_upto(weights@, 5) == if 0 <= speciality <= 4 {
                    500 + deyilv
                } else {
                    500
                },
                speciality == old(self).persons@[person_index as int].train_type,
                known(self.persons@, person_index),
                self.base.distribution@.len() >= 5,
                self.seats_known(),
            decreases 10 - retries,
        {
            let train: usize = match sample_bucket(&weights, rng) {
                Ok(t) => t,
                Err(e) => {
                    return Err(e);
                },
            };
            retries = retries + 1;
            assert(share(speciality as int, deyilv as int, train as int) > 0);
            if self.can_seat(person_index, train) {
                self.seat(person_index, train);
                assert(self.seats_known()) by {
                    assert(self.seats().len() == self.base.distribution@.len());
                    assert(old(self).seats().len() == old(self).base.distribution@.len());
                    assert forall|t: int, k: int|
                        0 <= t < self.base.distribution@.len() && 0 <= k
                            < self.base.distribution@[t]@.len() implies known(
                        self.persons@,
                        #[trigger] self.base.distribution@[t]@[k],
                    ) by {
                        assert(self.seats()[t] == self.base.distribution@[t]@);
                        if t != train {
                            assert(old(self).seats()[t] == old(self).base.distribution@[t]@);
                            assert(known(old(self).persons@, old(self).base.distribution@[t]@[k]));
                        } else if k < old(self).row(t).len() {
                            assert(known(old(self).persons@, old(self).base.distribution@[t]@[k]));
                        }
                    }
                }
                return Ok(train as i32);
            }
            assert(!seat_free(
                old(self).persons@,
                old(self).row(train as int),
                person_index,
            ));
        }
        Ok(-1)
    }
}

/// The order in which kinds of persons are sent to the trainings. Friends of other scenarios are
/// not sent.
pub open spec fn turn_order(kind: PersonType) -> int {
    match kind {
        PersonType::Yayoi => 0,
        PersonType::Reporter => 1,
        PersonType::ScenarioCard => 2,
        PersonType::TeamCard => 3,
        PersonType::Card => 4,
        PersonType::Npc => 5,
        PersonType::OtherFriend => 6,
    }
}

/// A person has been sent once the round has come to a kind and a position.
pub open spec fn reached(persons: Seq<BasePerson>, p: i32, kind: int, upto: int) -> bool {
    &&& known(persons, p)
    &&& turn_order(persons[p as int].person_type) < kind || (turn_order(
        persons[p as int].person_type,
    ) == kind && p < upto)
}

/// A person is sent to the trainings before another: by kind, then by position.
pub open spec fn sent_before(persons: Seq<BasePerson>, a: i32, b: i32) -> bool {
    let x = turn_order(persons[a as int].person_type);
    let y = turn_order(persons[b as int].person_type);
    x < y || (x == y && a < b)
}

/// Persons are listed in the order in which they are sent.
pub open spec fn in_sending_order(persons: Seq<BasePerson>, list: Seq<i32>) -> bool {
    forall|a: int, b: int|
        0 <= a < b < list.len() ==> sent_before(persons, #[trigger] list[a], #[trigger] list[b])
}

/// What holds while the persons are sent to the trainings: the trainings are in order, only those
/// who have been sent stand there, each at one training and behind those sent earlier, and those who
/// stay away, listed in the order in which they were sent, stand nowhere.
pub open spec fn round_ok(
    persons: Seq<BasePerson>,
    s: Seq<Seq<i32>>,
    away: Seq<i32>,
    turn: int,
    kind: int,
    upto: int,
) -> bool {
    &&& well_seated(persons, s)
    &&& forall|t: int, k: int|
        0 <= t < 5 && 0 <= k < s[t].len() ==> reached(persons, #[trigger] s[t][k], kind, upto)
            && available_on(persons[s[t][k] as int].person_type, turn)
    &&& forall|t1: int, t2: int, p: i32|
        0 <= t1 < t2 < 5 && #[trigger] s[t1].contains(p) ==> !#[trigger] s[t2].contains(p)
    &&& forall|t: int| 0 <= t < 5 ==> in_sending_order(persons, #[trigger] s[t])
    &&& in_sending_order(persons, away)
    &&& forall|k: int|
        0 <= k < away.len() ==> reached(persons, #[trigger] away[k], kind, upto) && !present(
            s,
            away[k],
        ) && persons[away[k] as int].person_type != PersonType::Npc && available_on(
            persons[away[k] as int].person_type,
            turn,
        )
}

/// A person has met a training without room: they may draw it, those who were sent before them are
/// the first `n` there, and these leave no room.
pub open spec fn met_full(
    persons: Seq<BasePerson>,
    rates: Seq<SpecialityRate>,
    s: Seq<Seq<i32>>,
    p: i32,
    t: int,
    n: int,
) -> bool {
    &&& 0 <= t < 5
    &&& 0 <= n <= s[t].len()
    &&& may_draw(persons, rates, p, t)
    &&& forall|k: int| 0 <= k < n ==> sent_before(persons, #[trigger] s[t][k], p)
    &&& forall|k: int| n <= k < s[t].len() ==> sent_before(persons, p, #[trigger] s[t][k])
    &&& !seat_free(persons, s[t].take(n), p)
}

/// A person has been turned away by those sent before them.
pub open spec fn found_no_room(
    persons: Seq<BasePerson>,
    rates: Seq<SpecialityRate>,
    s: Seq<Seq<i32>>,
    p: i32,
) -> bool {
    exists|t: int, n: int| #[trigger] met_full(persons, rates, s, p, t, n)
}

/// Everyone who could come and whose turn it has been stands at a training, stays away, or has been
/// turned away by those sent before them.
pub open spec fn all_sent(
    persons: Seq<BasePerson>,
    rates: Seq<SpecialityRate>,
    s: Seq<Seq<i32>>,
    away: Seq<i32>,
    turn: int,
    kind: int,
    upto: int,
) -> bool {
    forall|p: i32| #[trigger]
        reached(persons, p, kind, upto) && available_on(persons[p as int].person_type, turn)
            ==> present(s, p) || away.contains(p) || found_no_room(persons, rates, s, p)
}

/// A person may draw a training, with or without a friendship training at the first one.
pub open spec fn may_draw(
    persons: Seq<BasePerson>,
    rates: Seq<SpecialityRate>,
    p: i32,
    t: int,
) -> bool {
    let speciality = persons[p as int].train_type as int;
    share(speciality, rates[p as int].calm as int, t) > 0 || share(
        speciality,
        rates[p as int].shining as int,
        t,
    ) > 0
}

/// Nothing without a chance has come to pass: everyone at a training may draw it, and everyone who
/// stays away does so with a weight above zero.
pub open spec fn chances_kept(
    persons: Seq<BasePerson>,
    rates: Seq<SpecialityRate>,
    drop: int,
    s: Seq<Seq<i32>>,
    away: Seq<i32>,
) -> bool {
    &&& forall|t: int, k: int|
        0 <= t < 5 && 0 <= k < s[t].len() ==> may_draw(persons, rates, #[trigger] s[t][k], t)
    &&& forall|k: int|
        0 <= k < away.len() ==> absent_weight_of(
            persons[#[trigger] away[k] as int].person_type,
            drop,
        ) > 0
}

proof fn lemma_chances_step(
    before: RamenGame,
    after: RamenGame,
    rates: Seq<SpecialityRate>,
    n0: int,
    p: i32,
    allow_absent: bool,
    r: int,
)
    requires
        chances_kept(
            before.persons@,
            rates,
            before.base.absent_rate_drop as int,
            before.seats(),
            before.ramen.absent_cards@.skip(n0),
        ),
        0 <= n0 <= before.ramen.absent_cards@.len(),
        before.seats().len() == 5,
        known(before.persons@, p),
        sent(
            before,
            after,
            p,
            stay_weight(&before, p, allow_absent) > 0,
            rates[p as int].at(before),
            r,
        ),
    ensures
        chances_kept(
            before.persons@,
            rates,
            before.base.absent_rate_drop as int,
            after.seats(),
            after.ramen.absent_cards@.skip(n0),
        ),
{
    let s = before.seats();
    let n = after.seats();
    let away = before.ramen.absent_cards@.skip(n0);
    let gone = after.ramen.absent_cards@.skip(n0);
    if r < 0 && after.ramen.absent_cards@ != before.ramen.absent_cards@ {
        assert(gone =~= away.push(p));
    }
    assert forall|t: int, k: int| 0 <= t < 5 && 0 <= k < n[t].len() implies may_draw(
        before.persons@,
        rates,
        #[trigger] n[t][k],
        t,
    ) by {
        assert(before.row(t) == s[t]);
        if k < s[t].len() {
            assert(n[t][k] == s[t][k]);
            assert(may_draw(before.persons@, rates, s[t][k], t));
        }
    }
    assert forall|k: int| 0 <= k < gone.len() implies absent_weight_of(
        before.persons@[#[trigger] gone[k] as int].person_type,
        before.base.absent_rate_drop as int,
    ) > 0 by {
        if k < away.len() {
            assert(gone[k] == away[k]);
        }
    }
}

/// Where every training has room for a person, a finished round has them at a training or away;
/// a bystander then stands at a training.
pub proof fn law_nobody_is_forgotten(
    persons: Seq<BasePerson>,
    rates: Seq<SpecialityRate>,
    s: Seq<Seq<i32>>,
    away: Seq<i32>,
    turn: int,
    p: i32,
)
    requires
        round_ok(persons, s, away, turn, 6, 0),
        all_sent(persons, rates, s, away, turn, 6, 0),
        known(persons, p),
        persons[p as int].person_type != PersonType::OtherFriend,
        available_on(persons[p as int].person_type, turn),
        !present(s, p) ==> forall|t: int| 0 <= t < 5 ==> seat_free(persons, #[trigger] s[t], p),
    ensures
        present(s, p) <==> !away.contains(p),
        persons[p as int].person_type == PersonType::Npc ==> present(s, p),
{
    assert(reached(persons, p, 6, 0));
    if away.contains(p) {
        let k = choose|k: int| 0 <= k < away.len() && away[k] == p;
        assert(!present(s, away[k]));
    } else if !present(s, p) {
        let (t, n) = choose|t: int, n: int| #[trigger] met_full(persons, rates, s, p, t, n);
        assert(seat_free(persons, s[t], p));
        lemma_room_among_fewer(persons, s[t], n, p);
    }
}

proof fn lemma_room_among_fewer(persons: Seq<BasePerson>, row: Seq<i32>, n: int, p: i32)
    requires
        seat_free(persons, row, p),
        0 <= n <= row.len(),
    ensures
        seat_free(persons, row.take(n), p),
{
    let few = row.take(n);
    if few.contains(p) {
        let k = choose|k: int| 0 <= k < few.len() && few[k] == p;
        assert(row[k] == p);
    }
    assert forall|k: int| 0 <= k < few.len() && friend_at(persons, p) implies !friend_at(
        persons,
        #[trigger] few[k],
    ) by {
        assert(few[k] == row[k]);
    }
}

proof fn lemma_all_sent_step(
    persons: Seq<BasePerson>,
    rates: Seq<SpecialityRate>,
    s: Seq<Seq<i32>>,
    away: Seq<i32>,
    n: Seq<Seq<i32>>,
    gone: Seq<i32>,
    turn: int,
    kind: int,
    p: i32,
)
    requires
        all_sent(persons, rates, s, away, turn, kind, p as int),
        s.len() == 5,
        n.len() == 5,
        forall|t: int|
            0 <= t < 5 ==> n[t] == s[t] || (n[t] == (#[trigger] s[t]).push(p) && turn_order(
                persons[p as int].person_type,
            ) == kind),
        gone == away || gone == away.push(p),
        present(n, p) || gone.contains(p) || found_no_room(persons, rates, n, p) || turn_order(
            persons[p as int].person_type,
        ) != kind || !available_on(persons[p as int].person_type, turn),
    ensures
        all_sent(persons, rates, n, gone, turn, kind, p + 1),
{
    assert forall|q: i32| #[trigger]
        reached(persons, q, kind, p + 1) && available_on(
            persons[q as int].person_type,
            turn,
        ) implies present(n, q) || gone.contains(q) || found_no_room(persons, rates, n, q) by {
        if q != p || turn_order(persons[p as int].person_type) != kind {
            assert(reached(persons, q, kind, p as int));
            if present(s, q) {
                let t = choose|t: int| 0 <= t < s.len() && (#[trigger] s[t]).contains(q);
                let k = choose|k: int| 0 <= k < s[t].len() && s[t][k] == q;
                assert(n[t][k] == q);
                assert(n[t].contains(q));
            } else if away.contains(q) {
                let k = choose|k: int| 0 <= k < away.len() && away[k] == q;
                assert(gone[k] == q);
            } else {
                let (t, m) = choose|t: int, m: int| #[trigger]
                    met_full(persons, rates, s, q, t, m);
                assert(n[t] == s[t] || n[t] == s[t].push(p));
                assert(n[t].take(m) =~= s[t].take(m));
                assert forall|k: int| 0 <= k < m implies sent_before(
                    persons,
                    #[trigger] n[t][k],
                    q,
                ) by {
                    assert(n[t][k] == s[t][k]);
                }
                assert forall|k: int| m <= k < n[t].len() implies sent_before(
                    persons,
                    q,
                    #[trigger] n[t][k],
                ) by {
                    if k < s[t].len() {
                        assert(n[t][k] == s[t][k]);
                    }
                }
                assert(met_full(persons, rates, n, q, t, m));
            }
        }
    }
}

proof fn lemma_reached_grows(
    persons: Seq<BasePerson>,
    s: Seq<Seq<i32>>,
    away: Seq<i32>,
    turn: int,
    kind: int,
    upto: int,
    kind2: int,
    upto2: int,
)
    requires
        round_ok(persons, s, away, turn, kind, upto),
        kind < kind2 || (kind == kind2 && upto <= upto2),
    ensures
        round_ok(persons, s, away, turn, kind2, upto2),
{
    assert forall|t: int, k: int| 0 <= t < 5 && 0 <= k < s[t].len() implies reached(
        persons,
        #[trigger] s[t][k],
        kind2,
        upto2,
    ) && available_on(persons[s[t][k] as int].person_type, turn) by {
        assert(reached(persons, s[t][k], kind, upto));
    }
    assert forall|k: int| 0 <= k < away.len() implies reached(
        persons,
        #[trigger] away[k],
        kind2,
        upto2,
    ) && !present(s, away[k]) && persons[away[k] as int].person_type != PersonType::Npc
        && available_on(persons[away[k] as int].person_type, turn) by {
        assert(reached(persons, away[k], kind, upto));
    }
}

proof fn lemma_round_seated(
    persons: Seq<BasePerson>,
    s: Seq<Seq<i32>>,
    away: Seq<i32>,
    turn: int,
    kind: int,
    p: i32,
    train: int,
)
    requires
        round_ok(persons, s, away, turn, kind, p as int),
        known(persons, p),
        turn_order(persons[p as int].person_type) == kind,
        available_on(persons[p as int].person_type, turn),
        0 <= train < 5,
        seat_free(persons, s[train], p),
    ensures
        round_ok(persons, s.update(train, s[train].push(p)), away, turn, kind, p + 1),
{
    let n = s.update(train, s[train].push(p));
    law_seating_keeps_order(persons, s, p, train);
    assert(!present(s, p)) by {
        if present(s, p) {
            let t = choose|t: int| 0 <= t < s.len() && (#[trigger] s[t]).contains(p);
            let k = choose|k: int| 0 <= k < s[t].len() && s[t][k] == p;
            assert(reached(persons, s[t][k], kind, p as int));
        }
    }
    assert forall|t: int, k: int| 0 <= t < 5 && 0 <= k < n[t].len() implies reached(
        persons,
        #[trigger] n[t][k],
        kind,
        p + 1,
    ) && available_on(persons[n[t][k] as int].person_type, turn) by {
        if t == train && k == s[train].len() {
        } else {
            assert(n[t][k] == s[t][k]);
            assert(reached(persons, s[t][k], kind, p as int));
        }
    }
    assert forall|t: int, q: i32| 0 <= t < 5 && #[trigger] n[t].contains(q) implies s[t].contains(q)
        || (t == train && q == p) by {
        let k = choose|k: int| 0 <= k < n[t].len() && n[t][k] == q;
        if t == train && k == s[train].len() {
        } else {
            assert(s[t][k] == q);
        }
    }
    assert forall|t: int| 0 <= t < 5 implies in_sending_order(persons, #[trigger] n[t]) by {
        assert(in_sending_order(persons, s[t]));
        assert forall|a: int, b: int| 0 <= a < b < n[t].len() implies sent_before(
            persons,
            #[trigger] n[t][a],
            #[trigger] n[t][b],
        ) by {
            assert(n[t][a] == s[t][a]);
            if t == train && b == s[train].len() {
                assert(reached(persons, s[t][a], kind, p as int));
            } else {
                assert(n[t][b] == s[t][b]);
            }
        }
    }
    assert forall|t1: int, t2: int, q: i32|
        0 <= t1 < t2 < 5 && #[trigger] n[t1].contains(q) implies !#[trigger] n[t2].contains(q) by {
        if n[t2].contains(q) {
            if q == p {
                assert(!s[t1].contains(p) && !s[t2].contains(p));
            } else {
                assert(s[t1].contains(q) && s[t2].contains(q));
            }
        }
    }
    assert forall|k: int| 0 <= k < away.len() implies reached(
        persons,
        #[trigger] away[k],
        kind,
        p + 1,
    ) && !present(n, away[k]) && persons[away[k] as int].person_type != PersonType::Npc
        && available_on(persons[away[k] as int].person_type, turn) by {
        assert(reached(persons, away[k], kind, p as int));
        assert(away[k] != p);
        if present(n, away[k]) {
            let t = choose|t: int| 0 <= t < n.len() && (#[trigger] n[t]).contains(away[k]);
            assert(s[t].contains(away[k]));
        }
    }
}

proof fn lemma_round_away(
    persons: Seq<BasePerson>,
    s: Seq<Seq<i32>>,
    away: Seq<i32>,
    turn: int,
    kind: int,
    p: i32,
)
    requires
        round_ok(persons, s, away, turn, kind, p as int),
        known(persons, p),
        turn_order(persons[p as int].person_type) == kind,
        available_on(persons[p as int].person_type, turn),
        persons[p as int].person_type != PersonType::Npc,
    ensures
        round_ok(persons, s, away.push(p), turn, kind, p + 1),
{
    lemma_reached_grows(persons, s, away, turn, kind, p as int, kind, p + 1);
    let next = away.push(p);
    assert forall|a: int, b: int| 0 <= a < b < next.len() implies sent_before(
        persons,
        #[trigger] next[a],
        #[trigger] next[b],
    ) by {
        assert(next[a] == away[a]);
        if b == away.len() {
            assert(reached(persons, away[a], kind, p as int));
        } else {
            assert(next[b] == away[b]);
        }
    }
    assert(!present(s, p)) by {
        if present(s, p) {
            let t = choose|t: int| 0 <= t < s.len() && (#[trigger] s[t]).contains(p);
            let k = choose|k: int| 0 <= k < s[t].len() && s[t][k] == p;
            assert(reached(persons, s[t][k], kind, p as int));
        }
    }
    assert forall|k: int| 0 <= k < next.len() implies reached(
        persons,
        #[trigger] next[k],
        kind,
        p + 1,
    ) && !present(s, next[k]) && persons[next[k] as int].person_type != PersonType::Npc
        && available_on(persons[next[k] as int].person_type, turn) by {
        if k < away.len() {
            assert(next[k] == away[k]);
            assert(reached(persons, away[k], kind, p + 1));
        }
    }
}

impl RamenGame {
    /// Sends everyone to the trainings anew, given everyone's speciality rate: director, reporter,
    /// the scenario's friend, groups, cards, bystanders. Those who stay away are recorded.
    ///
    /// Refused where someone's shares of the trainings do not add up to more than zero.
    pub fn distribute_all(&mut self, rates: &Vec<SpecialityRate>, rng: &mut StdRng) -> (r: Result<
        (),
        SimError,
    >)
        requires
            old(self).persons@.len() <= i32::MAX,
            rates@.len() == old(self).persons@.len(),
            forall|i: int| 0 <= i < rates@.len() ==> (#[trigger] rates@[i]).small(),
            old(self).base.absent_rate_drop >= 100 - i32::MAX,
            deck_ready(old(self).base.deck@),
        ensures
            deck_kept(old(self).base.deck@, final(self).base.deck@),
            seated_rated(final(self).persons@, final(self).base.deck@, final(self).seats()),
            final(self).persons@ == all_unhinted(old(self).persons@),
            chances_kept(
                final(self).persons@,
                rates@,
                old(self).base.absent_rate_drop as int,
                final(self).seats(),
                final(self).ramen.absent_cards@.skip(old(self).ramen.absent_cards@.len() as int),
            ),
            old(self).ramen.absent_cards@.len() <= final(self).ramen.absent_cards@.len(),
            final(self).ramen.absent_cards@.take(old(self).ramen.absent_cards@.len() as int)
                == old(self).ramen.absent_cards@,
            round_ok(
                final(self).persons@,
                final(self).seats(),
                final(self).ramen.absent_cards@.skip(old(self).ramen.absent_cards@.len() as int),
                old(self).base.turn as int,
                6,
                0,
            ),
            *final(self) == (RamenGame {
                base: BaseGame {
                    distribution: final(self).base.distribution,
                    deck: final(self).base.deck,
                    ..old(self).base
                },
                persons: final(self).persons,
                ramen: super::RamenState {
                    absent_cards: final(self).ramen.absent_cards,
                    ..old(self).ramen
                },
                ..*old(self)
            }),
            r is Ok ==> all_sent(
                final(self).persons@,
                rates@,
                final(self).seats(),
                final(self).ramen.absent_cards@.skip(old(self).ramen.absent_cards@.len() as int),
                old(self).base.turn as int,
                6,
                0,
            ),
            r matches Err(e) ==> e == SimError::EmptyWeights,
            (forall|i: int|
                0 <= i < rates@.len() ==> (#[trigger] rates@[i]).positive(
                    old(self).persons@[i].train_type as int,
                )) ==> r is Ok,
    {
        let order: [PersonType; 6] = [
            PersonType::Yayoi,
            PersonType::Reporter,
            PersonType::ScenarioCard,
            PersonType::TeamCard,
            PersonType::Card,
            PersonType::Npc,
        ];
        self.reset_distribution();
        let ghost persons = self.persons@;
        let ghost n0 = old(self).ramen.absent_cards@.len() as int;
        let ghost turn = old(self).base.turn as int;
        let ghost start = *self;
        assert(self.ramen.absent_cards@.skip(n0) =~= Seq::<i32>::empty());
        assert(round_ok(persons, self.seats(), self.ramen.absent_cards@.skip(n0), turn, 0, 0));
        assert(self.ramen.absent_cards@.take(n0) =~= old(self).ramen.absent_cards@);
        let mut k: usize = 0;
        while k < 6
            invariant
                k <= 6,
                order@ == seq![
                    PersonType::Yayoi,
                    PersonType::Reporter,
                    PersonType::ScenarioCard,
                    PersonType::TeamCard,
                    PersonType::Card,
                    PersonType::Npc,
                ],
                self.persons@ == persons,
                persons.len() <= i32::MAX,
                persons == all_unhinted(old(self).persons@),
                n0 == old(self).ramen.absent_cards@.len(),
                turn == old(self).base.turn,
                n0 <= self.ramen.absent_cards@.len(),
                self.ramen.absent_cards@.take(n0) == old(self).ramen.absent_cards@,
                round_ok(
                    persons,
                    self.seats(),
                    self.ramen.absent_cards@.skip(n0),
                    turn,
                    k as int,
                    0,
                ),
                all_sent(
                    persons,
                    rates@,
                    self.seats(),
                    self.ramen.absent_cards@.skip(n0),
                    turn,
                    k as int,
                    0,
                ),
                rates@.len() == persons.len(),
                forall|i: int| 0 <= i < rates@.len() ==> (#[trigger] rates@[i]).small(),
                self.base.absent_rate_drop >= 100 - i32::MAX,
                deck_ready(old(self).base.deck@),
                deck_kept(old(self).base.deck@, self.base.deck@),
                seated_rated(persons, self.base.deck@, self.seats()),
                chances_kept(
                    persons,
                    rates@,
                    old(self).base.absent_rate_drop as int,
                    self.seats(),
                    self.ramen.absent_cards@.skip(n0),
                ),
                *self == (RamenGame {
                    base: BaseGame {
                        distribution: self.base.distribution,
                        deck: self.base.deck,
                        ..old(self).base
                    },
                    persons: start.persons,
                    ramen: super::RamenState {
                        absent_cards: self.ramen.absent_cards,
                        ..old(self).ramen
                    },
                    ..*old(self)
                }),
                start.persons@ == persons,
            decreases 6 - k,
        {
            let ty: PersonType = order[k];
            assert(turn_order(ty) == k);
            let mut i: usize = 0;
            while i < self.persons.len()
                invariant
                    k < 6,
                    turn_order(ty) == k,
                    i <= persons.len(),
                    self.persons@ == persons,
                    persons.len() <= i32::MAX,
                    persons == all_unhinted(old(self).persons@),
                    n0 == old(self).ramen.absent_cards@.len(),
                    turn == old(self).base.turn,
                    n0 <= self.ramen.absent_cards@.len(),
                    self.ramen.absent_cards@.take(n0) == old(self).ramen.absent_cards@,
                    round_ok(
                        persons,
                        self.seats(),
                        self.ramen.absent_cards@.skip(n0),
                        turn,
                        k as int,
                        i as int,
                    ),
                    all_sent(
                        persons,
                        rates@,
                        self.seats(),
                        self.ramen.absent_cards@.skip(n0),
                        turn,
                        k as int,
                        i as int,
                    ),
                    rates@.len() == persons.len(),
                    forall|i: int| 0 <= i < rates@.len() ==> (#[trigger] rates@[i]).small(),
                    self.base.absent_rate_drop >= 100 - i32::MAX,
                    deck_ready(old(self).base.deck@),
                    deck_kept(old(self).base.deck@, self.base.deck@),
                    seated_rated(persons, self.base.deck@, self.seats()),
                    chances_kept(
                        persons,
                        rates@,
                        old(self).base.absent_rate_drop as int,
                        self.seats(),
                        self.ramen.absent_cards@.skip(n0),
                    ),
                    *self == (RamenGame {
                        base: BaseGame {
                            distribution: self.base.distribution,
                            deck: self.base.deck,
                            ..old(self).base
                        },
                        persons: start.persons,
                        ramen: super::RamenState {
                            absent_cards: self.ramen.absent_cards,
                            ..old(self).ramen
                        },
                        ..*old(self)
                    }),
                    start.persons@ == persons,
                decreases persons.len() - i,
            {
                let ghost before = *self;
                let ghost away = self.ramen.absent_cards@.skip(n0);
                if self.persons[i].person_type == ty && self.person_is_available(i) {
                    let allow_absent: bool = match ty {
                        PersonType::Npc => false,
                        _ => true,
                    };
                    proof {
                        lemma_round_known(*self, away, turn, k as int, i as int);
                        lemma_reached_grows(
                            persons,
                            before.seats(),
                            away,
                            turn,
                            k as int,
                            i as int,
                            6,
                            0,
                        );
                        assert(persons[i as int] == unhinted(old(self).persons@[i as int]));
                        assert(rates@[i as int].small());
                        lemma_kept_ready(old(self).base.deck@, self.base.deck@);
                    }
                    let r: Result<i32, SimError> = self.distribute_person(
                        i as i32,
                        allow_absent,
                        rates[i],
                        rng,
                    );
                    match r {
                        Ok(t) => {
                            proof {
                                lemma_round_step(
                                    before,
                                    *self,
                                    rates@,
                                    n0,
                                    turn,
                                    k as int,
                                    i as i32,
                                    allow_absent,
                                    rates@[i as int].at(before),
                                    t as int,
                                );
                                lemma_deck_step(old(self).base.deck@, before, *self, i as i32, t as int);
                                lemma_chances_step(
                                    before,
                                    *self,
                                    rates@,
                                    n0,
                                    i as i32,
                                    allow_absent,
                                    t as int,
                                );
                            }
                        },
                        Err(e) => {
                            assert(!rates@[i as int].positive(
                                old(self).persons@[i as int].train_type as int,
                            ));
                            proof {
                                lemma_deck_step(old(self).base.deck@, before, *self, i as i32, -1);
                            }
                            return Err(e);
                        },
                    }
                } else {
                    proof {
                        lemma_reached_grows(
                            persons,
                            self.seats(),
                            away,
                            turn,
                            k as int,
                            i as int,
                            k as int,
                            i + 1,
                        );
                        lemma_all_sent_step(
                            persons,
                            rates@,
                            self.seats(),
                            away,
                            self.seats(),
                            away,
                            turn,
                            k as int,
                            i as i32,
                        );
                    }
                }
                i = i + 1;
            }
            proof {
                lemma_reached_grows(
                    persons,
                    self.seats(),
                    self.ramen.absent_cards@.skip(n0),
                    turn,
                    k as int,
                    i as int,
                    k + 1,
                    0,
                );
                assert forall|p: i32| #[trigger] reached(persons, p, k + 1, 0) implies reached(
                    persons,
                    p,
                    k as int,
                    i as int,
                ) by {}
            }
            k = k + 1;
        }
        Ok(())
    }
}

/// Every card is as it was, or its contribution has been computed anew.
pub open spec fn deck_kept(before: Seq<SupportCard>, after: Seq<SupportCard>) -> bool {
    &&& same_cards(before, after)
    &&& forall|d: int|
        0 <= d < before.len() ==> #[trigger] after[d] == before[d] || (after[d].is_locked && (
        after[d].effect.view() == training_effect(&before[d], before, 0)
            || after[d].effect.view() == training_effect(&before[d], before, 1)))
}

/// The contribution of the card behind everyone with a speciality who stands at a training has
/// been computed.
pub open spec fn seated_rated(
    persons: Seq<BasePerson>,
    deck: Seq<SupportCard>,
    s: Seq<Seq<i32>>,
) -> bool {
    forall|p: i32|
        #![trigger present(s, p)]
        present(s, p) && 0 <= persons[p as int].train_type <= 4 ==> (card_place(
            persons,
            deck,
            p,
        ) matches Some(d) ==> deck[d].is_locked)
}

/// A card has its place in the deck whatever was kept of the cards.
pub proof fn lemma_same_position(a: Seq<SupportCard>, b: Seq<SupportCard>, card_id: u32, from: int)
    requires
        same_cards(a, b),
        0 <= from,
    ensures
        deck_position(a, card_id, from) == deck_position(b, card_id, from),
    decreases a.len() - from,
{
    if from < a.len() {
        assert(same_card(a[from], b[from]));
        lemma_same_position(a, b, card_id, from + 1);
    }
}

/// The card behind a person has its place in the deck whatever was kept of the cards.
pub proof fn lemma_same_place(
    persons: Seq<BasePerson>,
    a: Seq<SupportCard>,
    b: Seq<SupportCard>,
    p: i32,
)
    requires
        same_cards(a, b),
    ensures
        card_place(persons, a, p) == card_place(persons, b, p),
        card_place(persons, a, p) matches Some(d) ==> 0 <= d < a.len(),
{
    if known(persons, p) {
        if let Some(cid) = persons[p as int].card_id {
            lemma_same_position(a, b, cid, 0);
            lemma_deck_position(a, cid, 0);
        }
    }
}

proof fn lemma_place_ready(game: RamenGame, p: i32)
    requires
        deck_ready(game.base.deck@),
    ensures
        card_place(game.persons@, game.base.deck@, p) matches Some(d) ==> effect_computable(
            &game.base.deck@[d],
            game.base.deck@,
            game.shining(0).len() as int,
        ),
{
    let deck = game.base.deck@;
    assert(same_cards(deck, deck)) by {
        assert forall|d: int| 0 <= d < deck.len() implies same_card(deck[d], #[trigger] deck[d]) by {}
    }
    lemma_same_place(game.persons@, deck, deck, p);
    if let Some(d) = card_place(game.persons@, deck, p) {
        assert(effect_computable(&deck[d], deck, 0) && effect_computable(&deck[d], deck, 1));
    }
}

proof fn lemma_kept_ready(a: Seq<SupportCard>, b: Seq<SupportCard>)
    requires
        same_cards(a, b),
        deck_ready(a),
    ensures
        deck_ready(b),
{
    assert forall|d: int| 0 <= d < b.len() implies effect_computable(&#[trigger] b[d], b, 0)
        && effect_computable(&b[d], b, 1) by {
        law_contribution_ignores_what_was_kept(a, b, d, 0);
        law_contribution_ignores_what_was_kept(a, b, d, 1);
        assert(effect_computable(&a[d], a, 0));
    }
}

proof fn lemma_deck_rated(first: Seq<SupportCard>, before: RamenGame, deck: Seq<SupportCard>, p: i32)
    requires
        deck_kept(first, before.base.deck@),
        rated(before, deck, p) || deck == before.base.deck@,
    ensures
        deck_kept(first, deck),
        same_cards(before.base.deck@, deck),
        forall|d: int|
            0 <= d < deck.len() && before.base.deck@[d].is_locked ==> (#[trigger] deck[d]).is_locked,
        rated(before, deck, p) && 0 <= before.persons@[p as int].train_type <= 4 ==> (card_place(
            before.persons@,
            deck,
            p,
        ) matches Some(d) ==> deck[d].is_locked),
{
    let old_deck = before.base.deck@;
    assert(same_cards(old_deck, old_deck)) by {
        assert forall|d: int| 0 <= d < old_deck.len() implies same_card(
            old_deck[d],
            #[trigger] old_deck[d],
        ) by {}
    }
    lemma_same_place(before.persons@, old_deck, old_deck, p);
    assert forall|d: int| 0 <= d < deck.len() implies same_card(old_deck[d], #[trigger] deck[d]) by {}
    assert(same_cards(old_deck, deck));
    assert forall|d: int| 0 <= d < deck.len() implies same_card(first[d], #[trigger] deck[d]) by {
        assert(same_card(first[d], old_deck[d]));
        assert(same_card(old_deck[d], deck[d]));
    }
    assert(same_cards(first, deck));
    lemma_same_place(before.persons@, old_deck, deck, p);
    assert forall|d: int| 0 <= d < first.len() implies #[trigger] deck[d] == first[d] || (
    deck[d].is_locked && (deck[d].effect.view() == training_effect(&first[d], first, 0)
        || deck[d].effect.view() == training_effect(&first[d], first, 1))) by {
        if deck[d] != old_deck[d] {
            let n = before.shining(0).len() as int;
            law_contribution_ignores_what_was_kept(first, old_deck, d, n);
            assert(training_effect(&first[d], first, n) == training_effect(
                &first[d],
                first,
                if n > 0 {
                    1
                } else {
                    0
                },
            ));
        } else {
            assert(old_deck[d] == first[d] || old_deck[d].is_locked);
        }
    }
}

proof fn lemma_deck_step(first: Seq<SupportCard>, before: RamenGame, after: RamenGame, p: i32, r: int)
    requires
        deck_kept(first, before.base.deck@),
        seated_rated(before.persons@, before.base.deck@, before.seats()),
        before.seats().len() == 5,
        after.persons == before.persons,
        if after.ramen.absent_cards@ == before.ramen.absent_cards@ {
            rated(before, after.base.deck@, p)
        } else {
            after.base.deck@ == before.base.deck@
        },
        r >= 0 ==> after.ramen.absent_cards@ == before.ramen.absent_cards@,
        after.seats() == before.seats() || (0 <= r < 5 && after.seats() == before.seats().update(
            r,
            before.row(r).push(p),
        )),
    ensures
        deck_kept(first, after.base.deck@),
        seated_rated(after.persons@, after.base.deck@, after.seats()),
{
    let deck = after.base.deck@;
    lemma_deck_rated(first, before, deck, p);
    let s = before.seats();
    let n = after.seats();
    assert forall|q: i32|
        #![trigger present(n, q)]
        present(n, q) && 0 <= before.persons@[q as int].train_type <= 4 implies (card_place(
        before.persons@,
        deck,
        q,
    ) matches Some(d) ==> deck[d].is_locked) by {
        lemma_same_place(before.persons@, before.base.deck@, deck, q);
        let t = choose|t: int| 0 <= t < n.len() && (#[trigger] n[t]).contains(q);
        let k = choose|k: int| 0 <= k < n[t].len() && n[t][k] == q;
        if q == p && r >= 0 {
        } else {
            assert(s[t].contains(q)) by {
                assert(before.row(t) == s[t]);
                if n[t] != s[t] {
                    assert(k < s[t].len());
                }
                assert(s[t][k] == q);
            }
            assert(present(s, q));
        }
    }
}

proof fn lemma_round_known(game: RamenGame, away: Seq<i32>, turn: int, kind: int, upto: int)
    requires
        round_ok(game.persons@, game.seats(), away, turn, kind, upto),
    ensures
        game.base.distribution@.len() == 5,
        game.seats_known(),
{
    assert forall|t: int, k: int|
        0 <= t < game.base.distribution@.len() && 0 <= k
            < game.base.distribution@[t]@.len() implies known(
        game.persons@,
        #[trigger] game.base.distribution@[t]@[k],
    ) by {
        assert(game.seats()[t] == game.base.distribution@[t]@);
        assert(reached(game.persons@, game.seats()[t][k], kind, upto));
    }
}

proof fn lemma_round_step(
    before: RamenGame,
    after: RamenGame,
    rates: Seq<SpecialityRate>,
    n0: int,
    turn: int,
    kind: int,
    p: i32,
    allow_absent: bool,
    deyilv: int,
    r: int,
)
    requires
        round_ok(
            before.persons@,
            before.seats(),
            before.ramen.absent_cards@.skip(n0),
            turn,
            kind,
            p as int,
        ),
        all_sent(
            before.persons@,
            rates,
            before.seats(),
            before.ramen.absent_cards@.skip(n0),
            turn,
            kind,
            p as int,
        ),
        0 <= n0 <= before.ramen.absent_cards@.len(),
        known(before.persons@, p),
        turn_order(before.persons@[p as int].person_type) == kind,
        available_on(before.persons@[p as int].person_type, turn),
        before.persons@[p as int].person_type == PersonType::Npc ==> !allow_absent,
        deyilv == rates[p as int].calm || deyilv == rates[p as int].shining,
        sent(before, after, p, stay_weight(&before, p, allow_absent) > 0, deyilv, r),
    ensures
        round_ok(
            after.persons@,
            after.seats(),
            after.ramen.absent_cards@.skip(n0),
            turn,
            kind,
            p + 1,
        ),
        all_sent(
            after.persons@,
            rates,
            after.seats(),
            after.ramen.absent_cards@.skip(n0),
            turn,
            kind,
            p + 1,
        ),
        n0 <= after.ramen.absent_cards@.len(),
        after.ramen.absent_cards@.take(n0) == before.ramen.absent_cards@.take(n0),
{
    let away = before.ramen.absent_cards@.skip(n0);
    assert(before.seats().len() == before.base.distribution@.len());
    if r >= 0 {
        assert(before.row(r) == before.seats()[r]);
        lemma_round_seated(before.persons@, before.seats(), away, turn, kind, p, r);
    } else if after.ramen.absent_cards@ == before.ramen.absent_cards@ {
        lemma_reached_grows(
            before.persons@,
            before.seats(),
            away,
            turn,
            kind,
            p as int,
            kind,
            p + 1,
        );
    } else {
        lemma_round_away(before.persons@, before.seats(), away, turn, kind, p);
        assert(after.ramen.absent_cards@.skip(n0) =~= away.push(p));
        assert(after.ramen.absent_cards@.take(n0) =~= before.ramen.absent_cards@.take(n0));
    }
    let gone = after.ramen.absent_cards@.skip(n0);
    let n = after.seats();
    if r >= 0 {
        assert(n[r].last() == p);
        assert(n[r].contains(p));
        assert(present(n, p));
    } else if gone == away {
        if after.ramen.absent_cards@ == before.ramen.absent_cards@ {
            let t = choose|t: int|
                0 <= t < 5 && share(
                    before.persons@[p as int].train_type as int,
                    deyilv,
                    t,
                ) > 0 && !seat_free(before.persons@, #[trigger] before.row(t), p);
            assert(before.seats()[t] == before.row(t));
            let row = before.seats()[t];
            assert(row.take(row.len() as int) =~= row);
            assert forall|k: int| 0 <= k < row.len() implies sent_before(
                before.persons@,
                #[trigger] row[k],
                p,
            ) by {
                assert(reached(before.persons@, before.seats()[t][k], kind, p as int));
            }
            assert(met_full(before.persons@, rates, n, p, t, row.len() as int));
        }
    } else {
        assert(gone.last() == p);
        assert(gone.contains(p));
    }
    lemma_all_sent_step(before.persons@, rates, before.seats(), away, n, gone, turn, kind, p);
}

/// A card makes its own training a friendship training from a bond of eighty on, wherever else it
/// stands it makes none; the scenario's friend does while the group is enthusiastic; nobody else
/// ever does.
pub proof fn law_who_shines(game: &RamenGame, p: i32, train: int)
    requires
        0 <= train < game.base.distribution@.len(),
    ensures
        game.shining(train).contains(p) <==> {
            &&& game.base.distribution@[train]@.contains(p)
            &&& 0 <= p < game.persons@.len()
            &&& match game.persons@[p as int].person_type {
                PersonType::Card => game.persons@[p as int].train_type == train
                    && game.persons@[p as int].friendship >= 80,
                PersonType::ScenarioCard => game.base.friend.group_buff_turn > 0,
                _ => false,
            }
        },
        game.shining(train).len() <= game.base.distribution@[train]@.len(),
{
    let persons = game.persons@;
    let buff = game.group_buff();
    let f = |p: i32| shines(persons, buff, p as int, train);
    let row = game.base.distribution@[train]@;
    lemma_in_filter(row, f, p);
    row.lemma_filter_len(f);
}

/// Who is kept by a filter: whoever stands in the list and passes.
pub proof fn lemma_in_filter(row: Seq<i32>, f: spec_fn(i32) -> bool, p: i32)
    ensures
        row.filter(f).contains(p) <==> row.contains(p) && f(p),
    decreases row.len(),
{
    reveal(Seq::filter);
    if row.len() > 0 {
        let rest = row.drop_last();
        lemma_in_filter(rest, f, p);
        assert(row =~= rest.push(row.last()));
        lemma_in_push(rest, row.last(), p);
        lemma_in_push(rest.filter(f), row.last(), p);
    }
}

proof fn lemma_in_push(s: Seq<i32>, x: i32, p: i32)
    ensures
        s.push(x).contains(p) <==> s.contains(p) || p == x,
{
    assert(s.push(x)[s.len() as int] == x);
    if s.contains(p) {
        let k = choose|k: int| 0 <= k < s.len() && s[k] == p;
        assert(s.push(x)[k] == p);
    }
    if s.push(x).contains(p) && p != x {
        let k = choose|k: int| 0 <= k < s.push(x).len() && s.push(x)[k] == p;
        assert(s[k] == p);
    }
}

/// The persons that count at a training are all but director and reporter; one more person raises
/// their number by one exactly if they count.
pub proof fn law_director_and_reporter_do_not_count(persons: Seq<BasePerson>, row: Seq<i32>, p: i32)
    requires
        0 <= p < persons.len(),
    ensures
        row.push(p).filter(|q: i32| counts(persons, q)).len() == row.filter(
            |q: i32| counts(persons, q),
        ).len() + (if persons[p as int].person_type == PersonType::Yayoi
            || persons[p as int].person_type == PersonType::Reporter {
            0int
        } else {
            1
        }),
        Seq::<i32>::empty().filter(|q: i32| counts(persons, q)).len() == 0,
{
    reveal(Seq::filter);
    assert(row.push(p).drop_last() =~= row);
}

/// A place at a training: five persons at most, nobody twice, and of friends, groups, director and
/// reporter one at most.
pub proof fn law_places_at_a_training(persons: Seq<BasePerson>, row: Seq<i32>, p: i32)
    requires
        0 <= p < persons.len(),
        forall|k: int| 0 <= k < row.len() ==> 0 <= #[trigger] row[k] < persons.len(),
    ensures
        row.len() >= 5 || row.contains(p) ==> !seat_free(persons, row, p),
        ({
            let kind = persons[p as int].person_type;
            let plain = persons[p as int].train_type <= 4 && kind != PersonType::Reporter && kind
                != PersonType::Yayoi;
            &&& plain && row.len() < 5 && !row.contains(p) ==> seat_free(persons, row, p)
            &&& !plain && (exists|k: int|
                0 <= k < row.len() && (persons[#[trigger] row[k] as int].train_type > 4
                    || persons[row[k] as int].person_type == PersonType::Reporter
                    || persons[row[k] as int].person_type == PersonType::Yayoi)) ==> !seat_free(
                persons,
                row,
                p,
            )
        }),
{
    if exists|k: int|
        0 <= k < row.len() && (persons[#[trigger] row[k] as int].train_type > 4
            || persons[row[k] as int].person_type == PersonType::Reporter
            || persons[row[k] as int].person_type == PersonType::Yayoi) {
        let k = choose|k: int|
            0 <= k < row.len() && (persons[#[trigger] row[k] as int].train_type > 4
                || persons[row[k] as int].person_type == PersonType::Reporter
                || persons[row[k] as int].person_type == PersonType::Yayoi);
        assert(friend_at(persons, row[k]));
    }
}

/// The weight with which a person stays away: two hundred for director and reporter, fifty for a
/// card and a hundred for friends and groups, less the drop; bystanders always come.
pub proof fn law_weights_of_staying_away(kind: PersonType, drop: int)
    ensures
        kind == PersonType::Yayoi || kind == PersonType::Reporter ==> absent_weight_of(kind, drop)
            == 200,
        kind == PersonType::Card ==> absent_weight_of(kind, drop) + drop == 50,
        kind == PersonType::ScenarioCard || kind == PersonType::TeamCard || kind
            == PersonType::OtherFriend ==> absent_weight_of(kind, drop) + drop == 100,
        kind == PersonType::Npc ==> absent_weight_of(kind, drop) == 0,
{
}

/// Each training weighs a hundred, the speciality more by its rate; drawn in proportion, the shares
/// lie side by side in the order of the trainings.
pub proof fn law_speciality_weighs_more(weights: Seq<i32>, speciality: int, deyilv: int, chosen: int)
    requires
        weights.len() == 5,
        0 <= speciality < 5,
        0 <= deyilv,
        forall|t: int| 0 <= t < 5 ==> #[trigger] weights[t] == share(speciality, deyilv, t),
        0 <= chosen < 500 + deyilv,
    ensures
        share(speciality, deyilv, speciality) == 100 + deyilv,
        forall|t: int| t != speciality ==> #[trigger] share(speciality, deyilv, t) == 100,
        chosen < 100 * speciality ==> bucket(weights, chosen, 0) == chosen / 100,
        100 * speciality <= chosen < 100 * speciality + 100 + deyilv ==> bucket(weights, chosen, 0)
            == speciality,
        chosen >= 100 * speciality + 100 + deyilv ==> bucket(weights, chosen, 0) == (chosen
            - deyilv) / 100,
{
    reveal_with_fuel(weight_upto, 6);
    reveal_with_fuel(bucket, 6);
    assert(weights[0] == share(speciality, deyilv, 0));
    assert(weights[1] == share(speciality, deyilv, 1));
    assert(weights[2] == share(speciality, deyilv, 2));
    assert(weights[3] == share(speciality, deyilv, 3));
    assert(weights[4] == share(speciality, deyilv, 4));
}

/// The scenario's friend comes from turn two on and the reporter from turn twelve on, everyone else
/// always.
pub proof fn law_who_can_come(kind: PersonType, turn: int)
    ensures
        kind == PersonType::ScenarioCard ==> (available_on(kind, turn) <==> turn >= 2),
        kind == PersonType::Reporter ==> (available_on(kind, turn) <==> turn >= 12),
        kind != PersonType::ScenarioCard && kind != PersonType::Reporter ==> available_on(kind, turn),
{
}

/// Everyone is sent in turn: director, reporter, scenario's friend, groups, cards, bystanders, and
/// within a kind by place. Whoever is sent earlier stands before the others at a training.
pub proof fn law_order_of_sending(persons: Seq<BasePerson>, a: i32, b: i32)
    requires
        0 <= a < persons.len(),
        0 <= b < persons.len(),
    ensures
        ({
            let x = persons[a as int].person_type;
            let y = persons[b as int].person_type;
            &&& x == y ==> (sent_before(persons, a, b) <==> a < b)
            &&& x == PersonType::Yayoi && y != PersonType::Yayoi ==> sent_before(persons, a, b)
            &&& x == PersonType::Reporter && y == PersonType::ScenarioCard ==> sent_before(
                persons,
                a,
                b,
            )
            &&& x == PersonType::ScenarioCard && y == PersonType::TeamCard ==> sent_before(
                persons,
                a,
                b,
            )
            &&& x == PersonType::TeamCard && y == PersonType::Card ==> sent_before(persons, a, b)
            &&& x == PersonType::Card && y == PersonType::Npc ==> sent_before(persons, a, b)
            &&& a != b ==> (sent_before(persons, a, b) <==> !sent_before(persons, b, a))
        }),
{
}

/// A round of sending leaves five trainings with five persons at most, nobody at two of them, nobody
/// both present and away, and nobody before their turn; bystanders never stay away.
pub proof fn law_round_is_orderly(
    persons: Seq<BasePerson>,
    s: Seq<Seq<i32>>,
    away: Seq<i32>,
    turn: int,
    t1: int,
    t2: int,
    p: i32,
)
    requires
        round_ok(persons, s, away, turn, 6, 0),
        0 <= t1 < t2 < 5,
    ensures
        s.len() == 5,
        s[t1].len() <= 5 && s[t2].len() <= 5,
        s[t1].no_duplicates(),
        !(s[t1].contains(p) && s[t2].contains(p)),
        away.contains(p) ==> !s[t1].contains(p) && !s[t2].contains(p),
        away.contains(p) ==> persons[p as int].person_type != PersonType::Npc,
        s[t1].contains(p) ==> 0 <= p < persons.len() && (persons[p as int].person_type
            == PersonType::Reporter ==> turn >= 12) && (persons[p as int].person_type
            == PersonType::ScenarioCard ==> turn >= 2),
{
    assert(row_ok(persons, s[t1]) && row_ok(persons, s[t2]));
    if away.contains(p) {
        let k = choose|k: int| 0 <= k < away.len() && away[k] == p;
        assert(!present(s, away[k]));
    }
    if s[t1].contains(p) {
        let k = choose|k: int| 0 <= k < s[t1].len() && s[t1][k] == p;
        assert(reached(persons, s[t1][k], 6, 0));
    }
}

/// Sending a person seats them last at one training with room, or leaves all trainings as they are;
/// who stays away is recorded last. Nobody else moves.
pub proof fn law_person_is_sent_once(
    before: RamenGame,
    after: RamenGame,
    p: i32,
    may_stay_away: bool,
    deyilv: int,
    r: int,
    t: int,
)
    requires
        sent(before, after, p, may_stay_away, deyilv, r),
        before.base.distribution@.len() == 5,
        0 <= t < 5,
    ensures
        after.base.distribution@.len() == 5,
        r == t ==> after.base.distribution@[t]@ =~= before.base.distribution@[t]@.push(p),
        r == t ==> before.base.distribution@[t]@.len() < 5 && !before.base.distribution@[t]@.contains(p),
        r != t ==> after.base.distribution@[t]@ =~= before.base.distribution@[t]@,
        r >= 0 ==> after.ramen.absent_cards@ == before.ramen.absent_cards@,
        !may_stay_away ==> after.ramen.absent_cards@ == before.ramen.absent_cards@,
        after.ramen.absent_cards@ != before.ramen.absent_cards@ ==> r == -1
            && after.ramen.absent_cards@ == before.ramen.absent_cards@.push(p),
        after.persons == before.persons,
        after.base.uma == before.base.uma,
{
    let s = before.seats();
    let u = after.seats();
    assert(u.len() == after.base.distribution@.len());
    assert(s.len() == 5);
    assert(u[t] == after.base.distribution@[t]@);
    assert(s[t] == before.base.distribution@[t]@);
}

/// Only where absence is allowed a person stays away, with the weight of their kind.
pub proof fn law_absence_must_be_allowed(game: &RamenGame, p: i32)
    requires
        0 <= p < game.persons@.len(),
    ensures
        stay_weight(game, p, false) == 0,
        game.persons@[p as int].person_type == PersonType::Card ==> stay_weight(game, p, true)
            + game.base.absent_rate_drop == 50,
        game.persons@[p as int].person_type == PersonType::Npc ==> stay_weight(game, p, true) == 0,
{
}

/// The card of a person who is sent keeps what it contributes now and does not change any more; no
/// other card of the deck is touched.
pub proof fn law_card_keeps_its_contribution(
    before: RamenGame,
    deck: Seq<SupportCard>,
    p: i32,
    d: int,
    k: int,
)
    requires
        card_refreshed(before, deck, p),
        0 <= p < before.persons@.len(),
        0 <= d < before.base.deck@.len(),
        0 <= k < before.base.deck@.len(),
        before.persons@[p as int].card_id == Some(before.base.deck@[d].card_id),
        forall|j: int|
            0 <= j < d ==> (#[trigger] before.base.deck@[j]).card_id != before.base.deck@[d].card_id,
    ensures
        deck.len() == before.base.deck@.len(),
        deck[d].is_locked,
        deck[d].effect.view() == training_effect(
            &before.base.deck@[d],
            before.base.deck@,
            before.shining(0).len() as int,
        ),
        deck[d].friendship == before.base.deck@[d].friendship,
        k != d ==> deck[k] == before.base.deck@[k],
{
    lemma_place_is_first(before.base.deck@, before.base.deck@[d].card_id, 0, d);
}

/// The card with a number is found at its first place in the deck.
pub proof fn lemma_place_is_first(deck: Seq<SupportCard>, card_id: u32, from: int, d: int)
    requires
        0 <= from <= d < deck.len(),
        deck[d].card_id == card_id,
        forall|j: int| from <= j < d ==> (#[trigger] deck[j]).card_id != card_id,
    ensures
        deck_position(deck, card_id, from) == Some(d),
    decreases d - from,
{
    if from < d {
        assert(deck[from].card_id != card_id);
        lemma_place_is_first(deck, card_id, from + 1, d);
    }
}

} // verus!
