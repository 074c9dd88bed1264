use std::collections::BTreeMap;
use vstd::prelude::*;
use crate::error::SimError;
use crate::gamedata::event::EventCollection;
use crate::gamedata::support_card::SupportCardData;
use crate::gamedata::uma::UmaData;

verus! {

broadcast use vstd::std_specs::btree::group_btree_axioms;

/// What is known of characters, support cards and events.
#[derive(Debug, Clone, Default)]
pub struct GameData {
    /// Characters by number.
    pub uma: BTreeMap<u32, UmaData>,
    /// Support cards by number.
    pub card: BTreeMap<u32, SupportCardData>,
    /// Names of the persons behind characters and cards, by number.
    pub names: BTreeMap<u32, String>,
    /// Events.
    pub events: EventCollection,
}

/// The name of a person; a fixed word for somebody unknown.
pub open spec fn name_of(names: Map<u32, String>, chara_id: u32) -> Seq<char> {
    if names.dom().contains(chara_id) {
        names[chara_id]@
    } else {
        "未知"@
    }
}

impl GameData {
    /// A character. Refused for an unknown number.
    pub fn get_uma(&self, id: u32) -> (r: Result<&UmaData, SimError>)
        ensures
            match r {
                Ok(d) => self.uma@.dom().contains(id) && *d == self.uma@[id],
                Err(e) => !self.uma@.dom().contains(id) && e == (SimError::UnknownUma { uma_id: id }),
            },
    {
        match self.uma.get(&id) {
            Some(d) => Ok(d),
            None => Err(SimError::UnknownUma { uma_id: id }),
        }
    }

    /// A support card. Refused for an unknown number.
    pub fn get_card(&self, id: u32) -> (r: Result<&SupportCardData, SimError>)
        ensures
            match r {
                Ok(d) => self.card@.dom().contains(id) && *d == self.card@[id],
                Err(e) => !self.card@.dom().contains(id) && e == (SimError::UnknownCard {
                    card_id: id,
                }),
            },
    {
        match self.card.get(&id) {
            Some(d) => Ok(d),
            None => Err(SimError::UnknownCard { card_id: id }),
        }
    }

    /// The name of a person.
    pub fn get_chara_name(&self, chara_id: u32) -> (name: &str)
        ensures
            name@ == name_of(self.names@, chara_id),
    {
        match self.names.get(&chara_id) {
            Some(name) => name.as_str(),
            None => "未知",
        }
    }
}

/// A character without a name is called unknown; a known one by its name.
pub proof fn law_unknown_characters(names: Map<u32, String>, chara_id: u32, name: String)
    ensures
        !names.contains_key(chara_id) ==> name_of(names, chara_id) == "未知"@,
        name_of(names.insert(chara_id, name), chara_id) == name@,
{
}

} // verus!
