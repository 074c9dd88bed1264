use vstd::prelude::*;
use crate::game::support_card::SupportCard;
use crate::text::{append_int, dec};

verus! {

/// What kind of person stands at a training.
#[derive(Debug, Clone, Copy, PartialEq, Eq, Structural, Default)]
pub enum PersonType {
    /// A support card of one of the five trainings.
    #[default]
    Card,
    /// The friend card of the scenario.
    ScenarioCard,
    /// Another friend card.
    OtherFriend,
    /// A group card.
    TeamCard,
    /// A bystander.
    Npc,
    /// The director.
    Yayoi,
    /// The reporter.
    Reporter,
}

/// What the rules ask of a person at a training.
pub trait Person {
    /// The kind of person.
    spec fn kind(&self) -> PersonType;

    /// The speciality: the five trainings from zero, larger for friends and groups.
    spec fn speciality(&self) -> int;

    /// The position among the persons.
    spec fn place(&self) -> int;

    /// The bond.
    spec fn bond(&self) -> int;

    /// Whether a hint shows.
    spec fn hinting(&self) -> bool;

    /// The card that stands behind the person, if any.
    spec fn card(&self) -> Option<u32>;

    /// The kind of person.
    fn person_type(&self) -> (r: PersonType)
        ensures
            r == self.kind(),
    ;

    /// The position among the persons.
    fn person_index(&self) -> (r: i32)
        ensures
            r == self.place(),
    ;

    /// The speciality.
    fn train_type(&self) -> (r: i32)
        ensures
            r == self.speciality(),
    ;

    /// The bond.
    fn friendship(&self) -> (r: i32)
        ensures
            r == self.bond(),
    ;

    /// Whether a hint shows.
    fn hint(&self) -> (r: bool)
        ensures
            r == self.hinting(),
    ;

    /// Shows or hides the hint.
    fn set_hint(&mut self, hint: bool)
        ensures
            final(self).hinting() == hint,
            final(self).kind() == old(self).kind(),
            final(self).speciality() == old(self).speciality(),
            final(self).place() == old(self).place(),
            final(self).bond() == old(self).bond(),
            final(self).card() == old(self).card(),
    ;

    /// The card that stands behind the person; nobody's for director, reporter and bystanders.
    fn card_id(&self) -> (r: Option<u32>)
        ensures
            r == self.card(),
    ;

    /// Whether the person is a friend, a group, the reporter or the director.
    fn is_friend(&self) -> (r: bool)
        ensures
            r == friendly(self.kind(), self.speciality()),
    {
        match self.person_type() {
            PersonType::Reporter => true,
            PersonType::Yayoi => true,
            _ => self.train_type() > 4,
        }
    }

    /// Whether the person is the friend card of the scenario.
    fn is_scenario_card(&self) -> (r: bool)
        ensures
            r == (self.kind() == PersonType::ScenarioCard),
    {
        match self.person_type() {
            PersonType::ScenarioCard => true,
            _ => false,
        }
    }
}

/// Friends, groups, the reporter and the director.
pub open spec fn friendly(kind: PersonType, speciality: int) -> bool {
    speciality > 4 || kind == PersonType::Reporter || kind == PersonType::Yayoi
}

/// A person at the trainings.
#[derive(Debug, Clone, Copy, PartialEq, Eq, Default)]
pub struct BasePerson {
    /// Position among the persons. It is not the position of a card in the deck.
    pub person_index: i32,
    /// Kind of person.
    pub person_type: PersonType,
    /// Speciality, or minus one for none.
    pub train_type: i32,
    /// Character.
    pub chara_id: u32,
    /// Bond.
    pub friendship: i32,
    /// Whether a hint shows.
    pub is_hint: bool,
    /// Card behind the person.
    pub card_id: Option<u32>,
}

/// The line that describes a person: the bond follows the name while it is between zero and a
/// hundred, and a mark in front shows a hint.
pub open spec fn person_text(p: &BasePerson, name: Seq<char>) -> Seq<char> {
    let with_bond = if p.person_type != PersonType::Npc && 0 < p.friendship < 100 {
        name + dec(p.friendship as int)
    } else {
        name
    };
    if p.is_hint {
        "!"@ + with_bond
    } else {
        with_bond
    }
}

/// The name under which a person is shown. Bystanders, director and reporter have fixed names,
/// the others that of their card; without one they get the start of their character's name.
pub open spec fn person_name(
    kind: PersonType,
    card_name: Option<Seq<char>>,
    chara_name: Seq<char>,
) -> Seq<char> {
    match kind {
        PersonType::Npc => "[NPC]"@,
        PersonType::Yayoi => "理事长"@,
        PersonType::Reporter => "记者"@,
        _ => match card_name {
            Some(n) => n,
            None => "[???]"@ + crate::text::head(chara_name, 2),
        },
    }
}

impl BasePerson {
    /// The name under which the person is shown, from the short name of the card behind them, if
    /// it is known, and the name of their character.
    pub fn short_name(&self, card_name: Option<&str>, chara_name: &str) -> (s: String)
        ensures
            s@ == person_name(
                self.person_type,
                match card_name {
                    Some(n) => Some(n@),
                    None => None,
                },
                chara_name@,
            ),
    {
        match self.person_type {
            PersonType::Npc => "[NPC]".to_owned(),
            PersonType::Yayoi => "理事长".to_owned(),
            PersonType::Reporter => "记者".to_owned(),
            _ => match card_name {
                Some(n) => n.to_owned(),
                None => {
                    let mut s: String = "[???]".to_owned();
                    s.append(crate::text::head_of(chara_name, 2));
                    s
                },
            },
        }
    }

    /// The line that describes the person, given the name to show.
    pub fn explain(&self, name: &str) -> (s: String)
        ensures
            s@ == person_text(self, name@),
    {
        let mut s: String = String::new();
        if self.is_hint {
            s.append("!");
        }
        s.append(name);
        let npc: bool = match self.person_type {
            PersonType::Npc => true,
            _ => false,
        };
        if !npc && self.friendship > 0 && self.friendship < 100 {
            append_int(&mut s, self.friendship as i64);
        }
        assert(s@ =~= person_text(self, name@));
        s
    }

    /// The director.
    pub fn yayoi() -> (p: BasePerson)
        ensures
            p == (BasePerson {
                person_index: 6,
                person_type: PersonType::Yayoi,
                train_type: (-1) as i32,
                chara_id: 9002,
                friendship: 0,
                is_hint: false,
                card_id: None,
            }),
    {
        BasePerson {
            person_index: 6,
            person_type: PersonType::Yayoi,
            train_type: -1,
            chara_id: 9002,
            friendship: 0,
            is_hint: false,
            card_id: None,
        }
    }

    /// The reporter.
    pub fn reporter() -> (p: BasePerson)
        ensures
            p == (BasePerson {
                person_index: 7,
                person_type: PersonType::Reporter,
                train_type: (-1) as i32,
                chara_id: 9003,
                friendship: 0,
                is_hint: false,
                card_id: None,
            }),
    {
        BasePerson {
            person_index: 7,
            person_type: PersonType::Reporter,
            train_type: -1,
            chara_id: 9003,
            friendship: 0,
            is_hint: false,
            card_id: None,
        }
    }

    /// The person that stands for a card of the deck.
    pub fn from_card(card: &SupportCard) -> (p: BasePerson)
        ensures
            p == (BasePerson {
                person_index: 0,
                person_type: card_person(card.card_type as int),
                train_type: card.card_type,
                chara_id: card.data.chara_id,
                friendship: card.friendship,
                is_hint: false,
                card_id: Some(card.card_id),
            }),
    {
        let person_type: PersonType = match card.card_type {
            5 => PersonType::ScenarioCard,
            6 => PersonType::TeamCard,
            _ => PersonType::Card,
        };
        BasePerson {
            person_index: 0,
            person_type,
            train_type: card.card_type,
            chara_id: card.data.chara_id,
            friendship: card.friendship,
            is_hint: false,
            card_id: Some(card.card_id),
        }
    }
}

/// The kind of person that stands for a kind of card.
pub open spec fn card_person(card_type: int) -> PersonType {
    if card_type == 5 {
        PersonType::ScenarioCard
    } else if card_type == 6 {
        PersonType::TeamCard
    } else {
        PersonType::Card
    }
}

impl Person for BasePerson {
    open spec fn kind(&self) -> PersonType {
        self.person_type
    }

    open spec fn speciality(&self) -> int {
        self.train_type as int
    }

    open spec fn place(&self) -> int {
        self.person_index as int
    }

    open spec fn bond(&self) -> int {
        self.friendship as int
    }

    open spec fn hinting(&self) -> bool {
        self.is_hint
    }

    open spec fn card(&self) -> Option<u32> {
        self.card_id
    }

    fn person_type(&self) -> (r: PersonType) {
        self.person_type
    }

    fn person_index(&self) -> (r: i32) {
        self.person_index
    }

    fn train_type(&self) -> (r: i32) {
        self.train_type
    }

    fn friendship(&self) -> (r: i32) {
        self.friendship
    }

    fn hint(&self) -> (r: bool) {
        self.is_hint
    }

    fn set_hint(&mut self, hint: bool)
        ensures
            *final(self) == (BasePerson { is_hint: hint, ..*old(self) }),
    {
        self.is_hint = hint;
    }

    fn card_id(&self) -> (r: Option<u32>) {
        self.card_id
    }
}

/// Friends, groups, director and reporter keep to themselves at a training; the five trainable kinds
/// and bystanders do not.
pub proof fn law_who_keeps_apart(kind: PersonType, speciality: int)
    ensures
        kind == PersonType::Reporter || kind == PersonType::Yayoi ==> friendly(kind, speciality),
        speciality >= 5 ==> friendly(kind, speciality),
        speciality <= 4 && (kind == PersonType::Card || kind == PersonType::Npc) ==> !friendly(
            kind,
            speciality,
        ),
{
}

/// A bond is shown with the name while it grows: not for bystanders, not at zero and not at a hundred.
/// A hint is marked in front.
pub proof fn law_growing_bonds_are_shown(p: BasePerson, name: Seq<char>)
    ensures
        !p.is_hint && p.person_type != PersonType::Npc && 0 < p.friendship < 100 ==> person_text(
            &p,
            name,
        ) =~= name + dec(p.friendship as int),
        !p.is_hint && (p.person_type == PersonType::Npc || p.friendship <= 0 || p.friendship >= 100)
            ==> person_text(&p, name) =~= name,
        p.is_hint ==> person_text(&p, name) =~= "!"@ + person_text(
            &(BasePerson { is_hint: false, ..p }),
            name,
        ),
{
}

/// The kind of person behind a card: the scenario's friend for the sixth kind, a group for the seventh,
/// a card for all others.
pub proof fn law_persons_behind_cards(card_type: int)
    ensures
        card_person(5) == PersonType::ScenarioCard,
        card_person(6) == PersonType::TeamCard,
        card_type != 5 && card_type != 6 ==> card_person(card_type) == PersonType::Card,
{
}

} // verus!
