use vstd::prelude::*;
use crate::text::{find_from, head, head_of, law_first_place_is_found, position_from};

verus! {

/// The panel of a support card at one limit break.
///
/// Percentages that multiply up are kept in hundredths of a percent.
#[derive(Debug, Clone, Copy, Default)]
pub struct CardValue {
    /// Friendship bonus, in hundredths of a percent.
    pub youqing: i32,
    /// Motivation bonus.
    pub ganjing: i32,
    /// Training bonus.
    pub xunlian: i32,
    /// Race bonus.
    pub saihou: i32,
    /// Speciality rate, in hundredths of a percent.
    pub deyilv: i32,
    /// Initial bond.
    pub initial_jiban: i32,
    /// Hint level.
    pub hint_level: i32,
    /// Rise of the hint rate in percent.
    pub hint_prob_increase: i32,
    /// Vitality restored by wisdom training.
    pub wiz_vital_bonus: i32,
    /// Drop of the failure rate, in hundredths of a percent.
    pub fail_rate_drop: i32,
    /// Drop of the vitality cost, in hundredths of a percent.
    pub vital_cost_drop: i32,
    /// Rise of event effects.
    pub event_effect_up: i32,
    /// Rise of event recovery.
    pub event_recovery_amount_up: i32,
    /// Status bonus by attribute, skill points last.
    pub bonus: [i32; 6],
    /// Initial status by attribute.
    pub initial_bonus: [i32; 6],
    /// Hint gain by attribute.
    pub hint_bonus: [i32; 6],
}

/// A support card.
#[derive(Debug, Clone, Default)]
pub struct SupportCardData {
    /// Number of the card.
    pub card_id: u32,
    /// Character of the card.
    pub chara_id: u32,
    /// Name, with the kind in brackets.
    pub card_name: String,
    /// Full name.
    pub full_name: String,
    /// Rarity.
    pub rarity: u32,
    /// Kind: the five trainings, then friend and group cards.
    pub card_type: i32,
    /// Panel by limit break.
    pub card_value: Vec<CardValue>,
    /// Number of the unique effect.
    pub unique_effect_type: u32,
    /// Parameters of the unique effect.
    pub unique_effect_param: Vec<i32>,
    /// Description of the unique effect.
    pub unique_effect_summary: Option<String>,
}

/// The bracketed kind of a card name and the two characters after it.
pub open spec fn card_short_name(name: Seq<char>) -> Seq<char> {
    let i = find_from(name, ']', 0);
    let j = find_from(name, ']', i + 1);
    name.take(i) + seq![']'] + head(name.subrange(i + 1, j), 2)
}

impl SupportCardData {
    /// The bracketed kind and the first two characters of the name.
    pub fn short_name(&self) -> (r: String)
        requires
            find_from(self.card_name@, ']', 0) < self.card_name@.len(),
        ensures
            r@ == card_short_name(self.card_name@),
    {
        let name: &str = self.card_name.as_str();
        let n: usize = name.unicode_len();
        let i: usize = position_from(name, ']', 0);
        assert(i < n);
        let j: usize = position_from(name, ']', i + 1);
        let left: &str = name.substring_char(0, i);
        let right: &str = name.substring_char(i + 1, j);
        let mut s: String = String::new();
        s.append(left);
        s.append("]");
        s.append(head_of(right, 2));
        proof {
            reveal_strlit("]");
            assert("]"@ =~= seq![']']);
            assert(left@ =~= name@.take(i as int));
            assert(s@ =~= card_short_name(self.card_name@));
        }
        s
    }
}

/// The short name of a card is its title up to the closing bracket and two characters of what follows,
/// up to a further bracket.
pub proof fn law_short_name_of_a_card(title: Seq<char>, name: Seq<char>)
    requires
        !title.contains(']'),
        !name.contains(']'),
        name.len() >= 2,
    ensures
        card_short_name(title + seq![']'] + name) =~= title + seq![']'] + name.take(2),
{
    let s = title + seq![']'] + name;
    law_first_place_is_found(s, ']', 0);
    let i = find_from(s, ']', 0);
    assert(s[title.len() as int] == ']');
    if i < title.len() {
        assert(s[i] == title[i]);
        assert(title.contains(']'));
    }
    assert(i == title.len());
    law_first_place_is_found(s, ']', i + 1);
    let j = find_from(s, ']', i + 1);
    if j < s.len() {
        assert(name[j - i - 1] == s[j]);
        assert(name.contains(']'));
    }
    assert(s.subrange(i + 1, j) =~= name);
    assert(s.take(i) =~= title);
}

} // verus!
