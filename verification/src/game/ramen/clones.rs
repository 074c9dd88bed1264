use rand::rngs::StdRng;
use vstd::prelude::*;
use super::distribution::{is_kind, lemma_in_filter};
use super::persons::has_kind;
use super::RamenGame;
use crate::game::base::person::{BasePerson, PersonType};
use crate::game::base::state::BaseGame;
use crate::gamedata::ramen::RamenScenarioData;
use crate::lists::{holds, lemma_filter_start, lemma_filter_step};
use crate::rng::pick_one;

verus! {

/// The persons at a training who do not give way to a clone: all but bystanders.
pub open spec fn firm(persons: Seq<BasePerson>, row: Seq<i32>) -> Seq<i32> {
    row.filter(|p: i32| !is_kind(persons, p, PersonType::Npc))
}

/// A training can take a clone of a person: the person is not there, and fewer than five do not
/// give way.
pub open spec fn clone_fits(persons: Seq<BasePerson>, row: Seq<i32>, p: i32) -> bool {
    !row.contains(p) && firm(persons, row).len() < 5
}

/// The first bystander at a training; its length if there is none.
pub open spec fn first_npc(persons: Seq<BasePerson>, row: Seq<i32>, from: int) -> int
    decreases row.len() - from,
{
    if from >= row.len() {
        row.len() as int
    } else if is_kind(persons, row[from], PersonType::Npc) {
        from
    } else {
        first_npc(persons, row, from + 1)
    }
}

/// A training after a clone has come: at a full training the first bystander leaves.
pub open spec fn with_clone(persons: Seq<BasePerson>, row: Seq<i32>, p: i32) -> Seq<i32> {
    if row.len() >= 5 {
        row.remove(first_npc(persons, row, 0)).push(p)
    } else {
        row.push(p)
    }
}

/// The first of those who stay away who has no place yet and can be placed at a training.
pub open spec fn first_absent(
    persons: Seq<BasePerson>,
    row: Seq<i32>,
    absent: Seq<i32>,
    placed: Seq<bool>,
    from: int,
) -> Option<int>
    decreases absent.len() - from,
{
    if from >= absent.len() {
        None
    } else if !placed[from] && clone_fits(persons, row, absent[from]) {
        Some(from)
    } else {
        first_absent(persons, row, absent, placed, from + 1)
    }
}

/// All positions among so many persons.
pub open spec fn places(n: nat) -> Seq<i32> {
    Seq::new(n, |i: int| i as i32)
}

/// The positions of all cards among the persons.
pub open spec fn card_places(persons: Seq<BasePerson>) -> Seq<i32> {
    places(persons.len()).filter(|p: i32| is_kind(persons, p, PersonType::Card))
}

/// A filtered list holds exactly the entries of the list that pass.
proof fn lemma_filter_holds(s: Seq<i32>, pred: spec_fn(i32) -> bool, x: i32)
    ensures
        s.filter(pred).contains(x) <==> (s.contains(x) && pred(x)),
{
    if s.contains(x) && pred(x) {
        let i = choose|i: int| 0 <= i < s.len() && s[i] == x;
        assert(s.filter(pred).contains(s[i]));
    }
    if s.filter(pred).contains(x) {
        let i = choose|i: int| 0 <= i < s.filter(pred).len() && s.filter(pred)[i] == x;
        assert(pred(s.filter(pred)[i]));
        s.lemma_filter_contains_rev(pred, x);
    }
}

pub proof fn lemma_card_places(persons: Seq<BasePerson>, p: i32)
    requires
        persons.len() <= i32::MAX,
    ensures
        card_places(persons).contains(p) <==> is_kind(persons, p, PersonType::Card),
{
    let pred = |q: i32| is_kind(persons, q, PersonType::Card);
    lemma_filter_holds(places(persons.len()), pred, p);
    if is_kind(persons, p, PersonType::Card) {
        assert(places(persons.len())[p as int] == p);
    }
}

/// The trainings, and which of those who stay away have been placed.
pub struct CloneBoard {
    pub seats: Seq<Seq<i32>>,
    pub placed: Seq<bool>,
}

/// After one training has been offered a clone: of the first who stays away and fits, otherwise of
/// the card that was picked for it, if any.
pub open spec fn clone_step(
    persons: Seq<BasePerson>,
    absent: Seq<i32>,
    board: CloneBoard,
    train: int,
    pick: Option<i32>,
) -> CloneBoard {
    if 0 <= train < 5 {
        match first_absent(persons, board.seats[train], absent, board.placed, 0) {
            Some(k) => CloneBoard {
                seats: board.seats.update(
                    train,
                    with_clone(persons, board.seats[train], absent[k]),
                ),
                placed: board.placed.update(k, true),
            },
            None => match pick {
                Some(p) => CloneBoard {
                    seats: board.seats.update(train, with_clone(persons, board.seats[train], p)),
                    placed: board.placed,
                },
                None => board,
            },
        }
    } else {
        board
    }
}

/// A pick is called for only where nobody who stays away can be placed; it then is some card that
/// fits, or nothing if none does.
pub open spec fn pick_ok(
    persons: Seq<BasePerson>,
    absent: Seq<i32>,
    board: CloneBoard,
    train: int,
    pick: Option<i32>,
) -> bool {
    if 0 <= train < 5 && first_absent(persons, board.seats[train], absent, board.placed, 0) is None {
        match pick {
            Some(p) => is_kind(persons, p, PersonType::Card) && clone_fits(
                persons,
                board.seats[train],
                p,
            ),
            None => forall|p: i32|
                is_kind(persons, p, PersonType::Card) ==> !#[trigger] clone_fits(
                    persons,
                    board.seats[train],
                    p,
                ),
        }
    } else {
        pick is None
    }
}

/// After the first so many trainings of a list have been offered clones.
pub open spec fn clone_run(
    persons: Seq<BasePerson>,
    absent: Seq<i32>,
    board: CloneBoard,
    trains: Seq<i32>,
    picks: Seq<Option<i32>>,
    n: int,
) -> CloneBoard
    decreases n,
{
    if n <= 0 {
        board
    } else {
        clone_step(
            persons,
            absent,
            clone_run(persons, absent, board, trains, picks, n - 1),
            trains[n - 1] as int,
            picks[n - 1],
        )
    }
}

/// All picks of a run are proper ones.
pub open spec fn picks_ok(
    persons: Seq<BasePerson>,
    absent: Seq<i32>,
    board: CloneBoard,
    trains: Seq<i32>,
    picks: Seq<Option<i32>>,
) -> bool {
    &&& picks.len() == trains.len()
    &&& forall|i: int|
        0 <= i < trains.len() ==> pick_ok(
            persons,
            absent,
            clone_run(persons, absent, board, trains, picks, i),
            trains[i] as int,
            #[trigger] picks[i],
        )
}

/// The cards among those who stay away.
pub open spec fn absent_cards_of(persons: Seq<BasePerson>, absent: Seq<i32>) -> Seq<i32> {
    absent.filter(|p: i32| is_kind(persons, p, PersonType::Card))
}

/// Nobody has been placed yet.
pub open spec fn fresh_board(seats: Seq<Seq<i32>>, n: nat) -> CloneBoard {
    CloneBoard { seats, placed: Seq::new(n, |i: int| false) }
}

/// What can come of the clones that a region's bowl brings. The first five regions bring none, nor
/// does a deck with too few kinds of cards.
pub open spec fn region_cloned(
    before: &RamenGame,
    after_seats: Seq<Seq<i32>>,
    data: &RamenScenarioData,
    region_id: usize,
    picks: Seq<Option<i32>>,
) -> bool {
    let absent = absent_cards_of(before.persons@, before.ramen.absent_cards@);
    let board = fresh_board(before.seats(), absent.len());
    let trains = data.ramen_region_effect@[region_id as int].at_trains@;
    if region_id >= 5 && before.deck_can_split {
        &&& picks_ok(before.persons@, absent, board, trains, picks)
        &&& after_seats == clone_run(
            before.persons@,
            absent,
            board,
            trains,
            picks,
            trains.len() as int,
        ).seats
    } else {
        after_seats == before.seats()
    }
}

proof fn lemma_first_npc(persons: Seq<BasePerson>, row: Seq<i32>, from: int)
    requires
        0 <= from <= row.len(),
    ensures
        from <= first_npc(persons, row, from) <= row.len(),
        first_npc(persons, row, from) < row.len() ==> is_kind(
            persons,
            row[first_npc(persons, row, from)],
            PersonType::Npc,
        ),
        forall|k: int|
            from <= k < first_npc(persons, row, from) ==> !is_kind(
                persons,
                #[trigger] row[k],
                PersonType::Npc,
            ),
    decreases row.len() - from,
{
    if from < row.len() && !is_kind(persons, row[from], PersonType::Npc) {
        lemma_first_npc(persons, row, from + 1);
    }
}

proof fn lemma_firm_all(persons: Seq<BasePerson>, row: Seq<i32>, n: int)
    requires
        0 <= n <= row.len(),
        forall|k: int| 0 <= k < n ==> !is_kind(persons, #[trigger] row[k], PersonType::Npc),
    ensures
        row.take(n).filter(|p: i32| !is_kind(persons, p, PersonType::Npc)).len() == n,
    decreases n,
{
    let pred = |p: i32| !is_kind(persons, p, PersonType::Npc);
    if n == 0 {
        lemma_filter_start(row, pred);
    } else {
        lemma_firm_all(persons, row, n - 1);
        lemma_filter_step(row, pred, n - 1);
        assert(pred(row[n - 1]));
    }
}

proof fn lemma_npc_gives_way(persons: Seq<BasePerson>, row: Seq<i32>)
    requires
        row.len() >= 5,
        firm(persons, row).len() < 5,
    ensures
        0 <= first_npc(persons, row, 0) < row.len(),
        is_kind(persons, row[first_npc(persons, row, 0)], PersonType::Npc),
{
    lemma_first_npc(persons, row, 0);
    if first_npc(persons, row, 0) == row.len() {
        lemma_firm_all(persons, row, row.len() as int);
        assert(row.take(row.len() as int) =~= row);
    }
}

/// A clone that fits leaves its training with five persons at most and nobody twice; only a
/// bystander can have left.
pub proof fn law_clone_keeps_room(persons: Seq<BasePerson>, row: Seq<i32>, p: i32)
    requires
        row.len() <= 5,
        row.no_duplicates(),
        clone_fits(persons, row, p),
    ensures
        with_clone(persons, row, p).len() <= 5,
        with_clone(persons, row, p).no_duplicates(),
        with_clone(persons, row, p).contains(p),
        forall|k: int|
            0 <= k < row.len() && !is_kind(persons, #[trigger] row[k], PersonType::Npc)
                ==> with_clone(persons, row, p).contains(row[k]),
{
    let out = with_clone(persons, row, p);
    assert(out[out.len() - 1] == p);
    if row.len() >= 5 {
        lemma_npc_gives_way(persons, row);
        let f = first_npc(persons, row, 0);
        assert forall|k: int|
            0 <= k < row.len() && !is_kind(
                persons,
                #[trigger] row[k],
                PersonType::Npc,
            ) implies out.contains(row[k]) by {
            if k < f {
                assert(out[k] == row[k]);
            } else {
                assert(out[k - 1] == row[k]);
            }
        }
        assert forall|a: int, b: int| 0 <= a < b < out.len() implies out[a] != out[b] by {
            let ra = if a < f {
                a
            } else {
                a + 1
            };
            assert(out[a] == row[ra]);
            if b == out.len() - 1 {
                assert(row.contains(row[ra]));
            } else {
                let rb = if b < f {
                    b
                } else {
                    b + 1
                };
                assert(out[b] == row[rb]);
            }
        }
    } else {
        assert forall|k: int| 0 <= k < row.len() implies out.contains(#[trigger] row[k]) by {
            assert(out[k] == row[k]);
        }
        assert forall|a: int, b: int| 0 <= a < b < out.len() implies out[a] != out[b] by {
            if b == row.len() {
                assert(row.contains(row[a]));
            }
        }
    }
}

/// At a training that a bowl covers, someone who stays away is placed before any card is copied.
pub proof fn law_absent_come_first(
    persons: Seq<BasePerson>,
    absent: Seq<i32>,
    board: CloneBoard,
    train: int,
    pick: Option<i32>,
    k: int,
)
    requires
        0 <= train < 5,
        board.seats.len() >= 5,
        board.placed.len() == absent.len(),
        0 <= k < absent.len(),
        !board.placed[k],
        clone_fits(persons, board.seats[train], absent[k]),
    ensures
        ({
            let next = clone_step(persons, absent, board, train, pick);
            exists|j: int|
                0 <= j <= k && !board.placed[j] && #[trigger] next.placed[j] && next.seats[train]
                    == with_clone(persons, board.seats[train], absent[j])
        }),
{
    lemma_first_absent(persons, board.seats[train], absent, board.placed, 0, k);
    let next = clone_step(persons, absent, board, train, pick);
    let j = first_absent(persons, board.seats[train], absent, board.placed, 0)->0;
    assert(next.placed[j]);
}

proof fn lemma_first_absent(
    persons: Seq<BasePerson>,
    row: Seq<i32>,
    absent: Seq<i32>,
    placed: Seq<bool>,
    from: int,
    k: int,
)
    requires
        0 <= from <= k < absent.len(),
        !placed[k],
        clone_fits(persons, row, absent[k]),
    ensures
        first_absent(persons, row, absent, placed, from) matches Some(j) && from <= j <= k
            && !placed[j],
    decreases k - from,
{
    if placed[from] || !clone_fits(persons, row, absent[from]) {
        lemma_first_absent(persons, row, absent, placed, from + 1, k);
    }
}

impl RamenGame {
    /// Whether a training can take a clone of a person.
    pub fn can_place_clone(&self, person_index: i32, train: usize) -> (b: bool)
        requires
            train < self.base.distribution@.len(),
        ensures
            b == clone_fits(self.persons@, self.row(train as int), person_index),
    {
        let row: &Vec<i32> = &self.base.distribution[train];
        if holds(row, person_index) {
            return false;
        }
        let ghost persons = self.persons@;
        let ghost pred = |p: i32| !is_kind(persons, p, PersonType::Npc);
        let mut n: usize = 0;
        let mut i: usize = 0;
        proof {
            lemma_filter_start(row@, pred);
        }
        while i < row.len()
            invariant
                i <= row@.len(),
                n <= i,
                persons == self.persons@,
                pred == (|p: i32| !is_kind(persons, p, PersonType::Npc)),
                n == row@.take(i as int).filter(pred).len(),
            decreases row@.len() - i,
        {
            let p: i32 = row[i];
            proof {
                lemma_filter_step(row@, pred, i as int);
            }
            let npc: bool = p >= 0 && (p as usize) < self.persons.len() && self.persons[p as usize].person_type
                == PersonType::Npc;
            if !npc {
                n = n + 1;
            }
            i = i + 1;
        }
        assert(row@.take(row@.len() as int) =~= row@);
        n < 5
    }

    /// Places a clone of a person at a training that can take it.
    pub fn place_clone(&mut self, person_index: i32, train: usize)
        requires
            train < old(self).base.distribution@.len(),
            clone_fits(old(self).persons@, old(self).row(train as int), person_index),
        ensures
            final(self).seats() == old(self).seats().update(
                train as int,
                with_clone(old(self).persons@, old(self).row(train as int), person_index),
            ),
            *final(self) == (RamenGame {
                base: BaseGame {
                    distribution: final(self).base.distribution,
                    ..old(self).base
                },
                ..*old(self)
            }),
    {
        let ghost row = self.row(train as int);
        if self.base.distribution[train].len() >= 5 {
            proof {
                lemma_npc_gives_way(self.persons@, row);
            }
            let mut i: usize = 0;
            while !(self.base.distribution[train][i] >= 0 && (self.base.distribution[train][i] as usize)
                < self.persons.len() && self.persons[self.base.distribution[train][i] as usize].person_type
                == PersonType::Npc)
                invariant
                    train < self.base.distribution@.len(),
                    self.base.distribution@[train as int]@ == row,
                    *self == *old(self),
                    0 <= i <= first_npc(self.persons@, row, 0) < row.len(),
                    row.len() <= usize::MAX,
                    first_npc(self.persons@, row, 0) == first_npc(self.persons@, row, i as int),
                    is_kind(
                        self.persons@,
                        row[first_npc(self.persons@, row, 0)],
                        PersonType::Npc,
                    ),
                decreases row.len() - i,
            {
                i = i + 1;
            }
            self.base.distribution[train].remove(i);
        }
        self.base.distribution[train].push(person_index);
        assert(self.seats() =~= old(self).seats().update(
            train as int,
            with_clone(old(self).persons@, row, person_index),
        ));
    }

    /// The first of those who stay away who has no place yet and can be placed at a training.
    fn absent_for(&self, absent: &Vec<i32>, placed: &Vec<bool>, train: usize) -> (r: Option<usize>)
        requires
            train < self.base.distribution@.len(),
            placed@.len() == absent@.len(),
        ensures
            match r {
                Some(k) => k < absent@.len() && !placed@[k as int] && clone_fits(
                    self.persons@,
                    self.row(train as int),
                    absent@[k as int],
                ) && first_absent(self.persons@, self.row(train as int), absent@, placed@, 0)
                    == Some(k as int),
                None => first_absent(self.persons@, self.row(train as int), absent@, placed@, 0) is None,
            },
    {
        let mut k: usize = 0;
        while k < absent.len()
            invariant
                k <= absent@.len(),
                train < self.base.distribution@.len(),
                placed@.len() == absent@.len(),
                first_absent(self.persons@, self.row(train as int), absent@, placed@, 0)
                    == first_absent(
                    self.persons@,
                    self.row(train as int),
                    absent@,
                    placed@,
                    k as int,
                ),
            decreases absent@.len() - k,
        {
            if !placed[k] && self.can_place_clone(absent[k], train) {
                return Some(k);
            }
            k = k + 1;
        }
        None
    }

    /// The positions of all cards among the persons.
    pub fn card_positions(&self) -> (out: Vec<i32>)
        requires
            self.persons@.len() <= i32::MAX,
        ensures
            out@ == card_places(self.persons@),
    {
        let ghost persons = self.persons@;
        let ghost all = places(persons.len());
        let ghost pred = |p: i32| is_kind(persons, p, PersonType::Card);
        let mut out: Vec<i32> = Vec::new();
        let mut i: usize = 0;
        proof {
            lemma_filter_start(all, pred);
        }
        while i < self.persons.len()
            invariant
                i <= self.persons@.len(),
                persons == self.persons@,
                persons.len() <= i32::MAX,
                all == places(persons.len()),
                pred == (|p: i32| is_kind(persons, p, PersonType::Card)),
                out@ == all.take(i as int).filter(pred),
            decreases self.persons@.len() - i,
        {
            proof {
                lemma_filter_step(all, pred, i as int);
            }
            if self.persons[i].person_type == PersonType::Card {
                out.push(i as i32);
            }
            i = i + 1;
        }
        assert(all.take(all.len() as int) =~= all);
        out
    }

    /// Picks one of the cards among the persons, if there is any.
    pub fn pick_card_person(&self, rng: &mut StdRng) -> (r: Option<i32>)
        requires
            self.persons@.len() <= i32::MAX,
        ensures
            r is Some <==> has_kind(self.persons@, PersonType::Card),
            r matches Some(p) ==> is_kind(self.persons@, p, PersonType::Card),
    {
        let cards: Vec<i32> = self.card_positions();
        let r: Option<i32> = pick_one(&cards, rng);
        proof {
            if cards@.len() > 0 {
                lemma_card_places(self.persons@, cards@[0]);
                assert(cards@.contains(cards@[0]));
                assert(self.persons@[cards@[0] as int].person_type == PersonType::Card);
            }
            if has_kind(self.persons@, PersonType::Card) {
                let i = choose|i: int|
                    0 <= i < self.persons@.len() && (#[trigger] self.persons@[i]).person_type
                        == PersonType::Card;
                lemma_card_places(self.persons@, i as i32);
            }
            if let Some(p) = r {
                lemma_card_places(self.persons@, p);
            }
        }
        r
    }

    /// The cards of a list of which a training can take a clone.
    fn legal_clones(&self, cards: &Vec<i32>, train: usize) -> (out: Vec<i32>)
        requires
            train < self.base.distribution@.len(),
        ensures
            out@ == cards@.filter(
                |p: i32| clone_fits(self.persons@, self.row(train as int), p),
            ),
    {
        let ghost pred = |p: i32| clone_fits(self.persons@, self.row(train as int), p);
        let mut out: Vec<i32> = Vec::new();
        let mut i: usize = 0;
        proof {
            lemma_filter_start(cards@, pred);
        }
        while i < cards.len()
            invariant
                i <= cards@.len(),
                train < self.base.distribution@.len(),
                pred == (|p: i32| clone_fits(self.persons@, self.row(train as int), p)),
                out@ == cards@.take(i as int).filter(pred),
            decreases cards@.len() - i,
        {
            let c: i32 = cards[i];
            proof {
                lemma_filter_step(cards@, pred, i as int);
            }
            if self.can_place_clone(c, train) {
                out.push(c);
            }
            i = i + 1;
        }
        assert(cards@.take(cards@.len() as int) =~= cards@);
        out
    }

    /// Offers a clone to one training, given the card that was picked for it in case nobody who
    /// stays away fits.
    pub fn place_region_clone(
        &mut self,
        absent: &Vec<i32>,
        placed: &mut Vec<bool>,
        train: usize,
        pick: Option<i32>,
    )
        requires
            train < 5,
            old(self).base.distribution@.len() >= 5,
            old(placed)@.len() == absent@.len(),
            pick_ok(
                old(self).persons@,
                absent@,
                (CloneBoard { seats: old(self).seats(), placed: old(placed)@ }),
                train as int,
                pick,
            ),
        ensures
            ({
                let next = clone_step(
                    old(self).persons@,
                    absent@,
                    (CloneBoard { seats: old(self).seats(), placed: old(placed)@ }),
                    train as int,
                    pick,
                );
                &&& final(self).seats() == next.seats
                &&& final(placed)@ == next.placed
            }),
            *final(self) == (RamenGame {
                base: BaseGame {
                    distribution: final(self).base.distribution,
                    ..old(self).base
                },
                ..*old(self)
            }),
    {
        assert(self.seats()[train as int] == self.row(train as int));
        match self.absent_for(absent, placed, train) {
            Some(k) => {
                self.place_clone(absent[k], train);
                placed.set(k, true);
            },
            None => match pick {
                Some(p) => {
                    self.place_clone(p, train);
                },
                None => {},
            },
        }
    }

    /// Places the clones that a region's bowl brings: at each training that the region covers, one
    /// of a card that stays away, in the order in which that was decided, otherwise one of a card
    /// picked at random. A training that cannot take any card is left as it is.
    pub fn distribute_region_clones(&mut self, data: &RamenScenarioData, region_id: usize, rng: &mut StdRng)
        requires
            region_id < data.ramen_region_effect@.len(),
            region_id >= 5 && old(self).deck_can_split ==> old(self).base.distribution@.len() >= 5,
            old(self).persons@.len() <= i32::MAX,
        ensures
            exists|picks: Seq<Option<i32>>| #[trigger]
                region_cloned(old(self), final(self).seats(), data, region_id, picks),
            *final(self) == (RamenGame {
                base: BaseGame {
                    distribution: final(self).base.distribution,
                    ..old(self).base
                },
                ..*old(self)
            }),
    {
        let ghost mut picks: Seq<Option<i32>> = Seq::empty();
        if region_id < 5 || !self.deck_can_split {
            assert(region_cloned(old(self), self.seats(), data, region_id, picks));
            return;
        }
        let trains: &Vec<i32> = &data.ramen_region_effect[region_id].at_trains;
        let cards: Vec<i32> = self.card_positions();
        let absent: Vec<i32> = self.absent_card_list();
        let mut placed: Vec<bool> = Vec::new();
        let ghost persons = self.persons@;
        let ghost board = fresh_board(self.seats(), absent@.len());
        let mut j: usize = 0;
        while j < absent.len()
            invariant
                j <= absent@.len(),
                placed@ == Seq::new(j as nat, |i: int| false),
            decreases absent@.len() - j,
        {
            placed.push(false);
            j = j + 1;
            assert(placed@ =~= Seq::new(j as nat, |i: int| false));
        }
        let mut i: usize = 0;
        while i < trains.len()
            invariant
                i <= trains@.len(),
                persons == self.persons@,
                persons == old(self).persons@,
                *self == (RamenGame {
                    base: BaseGame { distribution: self.base.distribution, ..old(self).base },
                    ..*old(self)
                }),
                self.base.distribution@.len() >= 5,
                placed@.len() == absent@.len(),
                picks.len() == i,
                self.seats() == clone_run(persons, absent@, board, trains@, picks, i as int).seats,
                placed@ == clone_run(persons, absent@, board, trains@, picks, i as int).placed,
                forall|k: int|
                    0 <= k < i ==> pick_ok(
                        persons,
                        absent@,
                        clone_run(persons, absent@, board, trains@, picks, k),
                        trains@[k] as int,
                        #[trigger] picks[k],
                    ),
                persons.len() <= i32::MAX,
                cards@ == card_places(persons),
            decreases trains@.len() - i,
        {
            let ghost now = CloneBoard { seats: self.seats(), placed: placed@ };
            let ghost old_picks = picks;
            let mut pick: Option<i32> = None;
            let train: i32 = trains[i];
            assert(self.seats().len() == self.base.distribution@.len());
            if 0 <= train && train < 5 {
                let t: usize = train as usize;
                assert(self.seats()[t as int] == self.row(t as int));
                if self.absent_for(&absent, &placed, t).is_none() {
                    let legal: Vec<i32> = self.legal_clones(&cards, t);
                    pick = pick_one(&legal, rng);
                    proof {
                        let fits = |p: i32| clone_fits(self.persons@, self.row(t as int), p);
                        if pick is None {
                            assert forall|p: i32|
                                is_kind(persons, p, PersonType::Card) implies !#[trigger] clone_fits(
                                persons,
                                now.seats[t as int],
                                p,
                            ) by {
                                lemma_card_places(persons, p);
                                lemma_filter_holds(cards@, fits, p);
                                if clone_fits(persons, now.seats[t as int], p) {
                                    assert(legal@.contains(p));
                                }
                            }
                        } else {
                            lemma_filter_holds(cards@, fits, pick->0);
                            lemma_card_places(persons, pick->0);
                        }
                    }
                }
                assert(pick_ok(persons, absent@, now, t as int, pick));
                self.place_region_clone(&absent, &mut placed, t, pick);
            }
            assert(self.seats().len() == self.base.distribution@.len());
            proof {
                picks = picks.push(pick);
                lemma_run_ignores_later_picks(
                    persons,
                    absent@,
                    board,
                    trains@,
                    old_picks,
                    picks,
                    i as int,
                );
                assert forall|k: int| 0 <= k < i + 1 implies pick_ok(
                    persons,
                    absent@,
                    clone_run(persons, absent@, board, trains@, picks, k),
                    trains@[k] as int,
                    #[trigger] picks[k],
                ) by {
                    lemma_run_ignores_later_picks(
                        persons,
                        absent@,
                        board,
                        trains@,
                        old_picks,
                        picks,
                        k,
                    );
                    if k < i {
                        assert(picks[k] == old_picks[k]);
                    }
                }
            }
            i = i + 1;
        }
        assert(picks_ok(persons, absent@, board, trains@, picks));
        assert(region_cloned(old(self), self.seats(), data, region_id, picks));
    }

    /// The cards among those who stay away, in the order in which that was decided.
    fn absent_card_list(&self) -> (out: Vec<i32>)
        ensures
            out@ == absent_cards_of(self.persons@, self.ramen.absent_cards@),
    {
        let ghost persons = self.persons@;
        let ghost pred = |p: i32| is_kind(persons, p, PersonType::Card);
        let mut out: Vec<i32> = Vec::new();
        let mut i: usize = 0;
        proof {
            lemma_filter_start(self.ramen.absent_cards@, pred);
        }
        while i < self.ramen.absent_cards.len()
            invariant
                i <= self.ramen.absent_cards@.len(),
                persons == self.persons@,
                pred == (|p: i32| is_kind(persons, p, PersonType::Card)),
                out@ == self.ramen.absent_cards@.take(i as int).filter(pred),
            decreases self.ramen.absent_cards@.len() - i,
        {
            let p: i32 = self.ramen.absent_cards[i];
            proof {
                lemma_filter_step(self.ramen.absent_cards@, pred, i as int);
            }
            if p >= 0 && (p as usize) < self.persons.len() && self.persons[p as usize].person_type
                == PersonType::Card {
                out.push(p);
            }
            i = i + 1;
        }
        assert(self.ramen.absent_cards@.take(self.ramen.absent_cards@.len() as int)
            =~= self.ramen.absent_cards@);
        out
    }
}

proof fn lemma_run_ignores_later_picks(
    persons: Seq<BasePerson>,
    absent: Seq<i32>,
    board: CloneBoard,
    trains: Seq<i32>,
    picks: Seq<Option<i32>>,
    more: Seq<Option<i32>>,
    n: int,
)
    requires
        0 <= n <= picks.len(),
        picks.len() <= more.len(),
        forall|i: int| 0 <= i < n ==> picks[i] == more[i],
    ensures
        clone_run(persons, absent, board, trains, picks, n) == clone_run(
            persons,
            absent,
            board,
            trains,
            more,
            n,
        ),
    decreases n,
{
    if n > 0 {
        lemma_run_ignores_later_picks(persons, absent, board, trains, picks, more, n - 1);
    }
}

/// A training takes a clone of a person who is not there, while fewer than five others than bystanders
/// are. In particular it always does with fewer than five persons, and never twice the same.
pub proof fn law_room_for_a_clone(persons: Seq<BasePerson>, row: Seq<i32>, p: i32)
    ensures
        row.contains(p) ==> !clone_fits(persons, row, p),
        !row.contains(p) && row.len() < 5 ==> clone_fits(persons, row, p),
        row.len() >= 5 && (forall|k: int|
            0 <= k < row.len() ==> !(0 <= #[trigger] row[k] < persons.len() && persons[row[k] as int].person_type
                == PersonType::Npc)) ==> !clone_fits(persons, row, p),
        !row.contains(p) && row.len() == 5 && (exists|k: int|
            0 <= k < row.len() && 0 <= #[trigger] row[k] < persons.len() && persons[row[k] as int].person_type
                == PersonType::Npc) ==> clone_fits(persons, row, p),
{
    let f = |q: i32| !is_kind(persons, q, PersonType::Npc);
    row.lemma_filter_len(f);
    if forall|k: int|
        0 <= k < row.len() ==> !(0 <= #[trigger] row[k] < persons.len() && persons[row[k] as int].person_type
            == PersonType::Npc) {
        lemma_all_pass(row, f);
    }
    if exists|k: int|
        0 <= k < row.len() && 0 <= #[trigger] row[k] < persons.len() && persons[row[k] as int].person_type
            == PersonType::Npc {
        let k = choose|k: int|
            0 <= k < row.len() && 0 <= #[trigger] row[k] < persons.len() && persons[row[k] as int].person_type
                == PersonType::Npc;
        lemma_one_fails(row, f, k);
    }
}

proof fn lemma_all_pass(row: Seq<i32>, f: spec_fn(i32) -> bool)
    requires
        forall|k: int| 0 <= k < row.len() ==> f(#[trigger] row[k]),
    ensures
        row.filter(f) =~= row,
    decreases row.len(),
{
    reveal(Seq::filter);
    if row.len() > 0 {
        lemma_all_pass(row.drop_last(), f);
        assert(row.drop_last().push(row.last()) =~= row);
    }
}

proof fn lemma_one_fails(row: Seq<i32>, f: spec_fn(i32) -> bool, k: int)
    requires
        0 <= k < row.len(),
        !f(row[k]),
    ensures
        row.filter(f).len() < row.len(),
    decreases row.len(),
{
    reveal(Seq::filter);
    let rest = row.drop_last();
    rest.lemma_filter_len(f);
    if k < rest.len() {
        assert(rest[k] == row[k]);
        lemma_one_fails(rest, f, k);
    }
}

/// Bowls of the first five regions bring no clones, and no bowl does without a varied deck.
pub proof fn law_no_clones_from_early_regions(
    before: &RamenGame,
    after_seats: Seq<Seq<i32>>,
    data: &RamenScenarioData,
    region_id: usize,
    picks: Seq<Option<i32>>,
)
    requires
        region_cloned(before, after_seats, data, region_id, picks),
        region_id < 5 || !before.deck_can_split,
    ensures
        after_seats == before.seats(),
{
}

/// Clones appear only at the trainings that the region covers: all others keep their persons.
pub proof fn law_clones_stay_with_the_region(
    before: &RamenGame,
    after_seats: Seq<Seq<i32>>,
    data: &RamenScenarioData,
    region_id: usize,
    picks: Seq<Option<i32>>,
    t: int,
)
    requires
        region_cloned(before, after_seats, data, region_id, picks),
        before.base.distribution@.len() >= 5,
        0 <= t < before.base.distribution@.len(),
        forall|k: int|
            0 <= k < data.ramen_region_effect@[region_id as int].at_trains@.len()
                ==> #[trigger] data.ramen_region_effect@[region_id as int].at_trains@[k] != t,
    ensures
        after_seats.len() == before.base.distribution@.len(),
        after_seats[t] == before.base.distribution@[t]@,
{
    let absent = absent_cards_of(before.persons@, before.ramen.absent_cards@);
    let board = fresh_board(before.seats(), absent.len());
    let trains = data.ramen_region_effect@[region_id as int].at_trains@;
    lemma_run_leaves(before.persons@, absent, board, trains, picks, trains.len() as int, t);
}

proof fn lemma_run_leaves(
    persons: Seq<BasePerson>,
    absent: Seq<i32>,
    board: CloneBoard,
    trains: Seq<i32>,
    picks: Seq<Option<i32>>,
    n: int,
    t: int,
)
    requires
        0 <= n <= trains.len(),
        board.seats.len() >= 5,
        0 <= t < board.seats.len(),
        forall|k: int| 0 <= k < trains.len() ==> #[trigger] trains[k] != t,
    ensures
        clone_run(persons, absent, board, trains, picks, n).seats.len() == board.seats.len(),
        clone_run(persons, absent, board, trains, picks, n).seats[t] == board.seats[t],
    decreases n,
{
    if n > 0 {
        lemma_run_leaves(persons, absent, board, trains, picks, n - 1, t);
        assert(trains[n - 1] != t);
    }
}

/// A clone takes the place of the first bystander where a training is full, and a further place
/// otherwise; either way it comes last.
pub proof fn law_clone_takes_the_bystanders_place(persons: Seq<BasePerson>, row: Seq<i32>, p: i32, k: int)
    requires
        clone_fits(persons, row, p),
        row.len() >= 5 ==> {
            &&& 0 <= k < row.len()
            &&& 0 <= row[k] < persons.len()
            &&& persons[row[k] as int].person_type == PersonType::Npc
            &&& forall|j: int|
                0 <= j < k ==> !(0 <= #[trigger] row[j] < persons.len() && persons[row[j] as int].person_type
                    == PersonType::Npc)
        },
    ensures
        with_clone(persons, row, p).last() == p,
        row.len() < 5 ==> with_clone(persons, row, p) == row.push(p),
        row.len() >= 5 ==> with_clone(persons, row, p) == row.remove(k).push(p),
{
    if row.len() >= 5 {
        lemma_bystander_found(persons, row, 0, k);
    }
}

proof fn lemma_bystander_found(persons: Seq<BasePerson>, row: Seq<i32>, from: int, k: int)
    requires
        0 <= from <= k < row.len(),
        is_kind(persons, row[k], PersonType::Npc),
        forall|j: int| from <= j < k ==> !is_kind(persons, #[trigger] row[j], PersonType::Npc),
    ensures
        first_npc(persons, row, from) == k,
    decreases k - from,
{
    if from < k {
        assert(!is_kind(persons, row[from], PersonType::Npc));
        lemma_bystander_found(persons, row, from + 1, k);
    }
}

/// The positions of cards are those of the persons that are cards, no others.
pub proof fn law_positions_of_cards(persons: Seq<BasePerson>, p: i32)
    requires
        persons.len() <= i32::MAX,
    ensures
        card_places(persons).contains(p) <==> 0 <= p < persons.len() && persons[p as int].person_type
            == PersonType::Card,
{
    let f = |q: i32| is_kind(persons, q, PersonType::Card);
    let all = places(persons.len());
    if 0 <= p < persons.len() {
        assert(all[p as int] == p);
    }
    lemma_in_filter(all, f, p);
}

} // verus!
