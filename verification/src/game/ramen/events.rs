use rand::rngs::StdRng;
use vstd::prelude::*;
use crate::rng::{draw_below, shuffled};

verus! {

/// How far the story of the friend card has come.
#[derive(Debug, Clone, Copy, PartialEq, Eq, Structural)]
pub enum FriendEventState {
    /// Not met yet.
    NotAppear,
    /// Met at a training.
    Appeared,
    /// Outings are open.
    Unlocked,
    /// So many outings have taken place.
    Outing(u8),
    /// All five outings have taken place.
    Complete,
}

impl Default for FriendEventState {
    fn default() -> (s: FriendEventState)
        ensures
            s == FriendEventState::NotAppear,
    {
        FriendEventState::NotAppear
    }
}

/// The state after an outing, if one can take place.
pub open spec fn after_outing(s: FriendEventState) -> Option<FriendEventState> {
    match s {
        FriendEventState::Unlocked => Some(FriendEventState::Outing(1)),
        FriendEventState::Outing(n) => if n < 4 {
            Some(FriendEventState::Outing((n + 1) as u8))
        } else if n == 4 {
            Some(FriendEventState::Complete)
        } else {
            None
        },
        _ => None,
    }
}

impl FriendEventState {
    /// Whether the friend can show up at a training: from turn two until the story is complete.
    pub fn is_visible(&self, turn: i32) -> (b: bool)
        ensures
            b == (turn >= 2 && *self != FriendEventState::Complete),
    {
        turn >= 2 && *self != FriendEventState::Complete
    }

    /// Whether the friend has been met.
    pub fn has_appeared(&self) -> (b: bool)
        ensures
            b == (*self != FriendEventState::NotAppear),
    {
        *self != FriendEventState::NotAppear
    }

    /// Whether an outing with the friend can be picked.
    pub fn can_outing(&self) -> (b: bool)
        ensures
            b == (*self is Unlocked || *self is Outing),
    {
        match self {
            FriendEventState::Unlocked => true,
            FriendEventState::Outing(_) => true,
            _ => false,
        }
    }

    /// Meets the friend. Returns whether this was the first time.
    pub fn on_appear(&mut self) -> (b: bool)
        ensures
            b == (*old(self) == FriendEventState::NotAppear),
            *final(self) == if b {
                FriendEventState::Appeared
            } else {
                *old(self)
            },
    {
        if *self == FriendEventState::NotAppear {
            *self = FriendEventState::Appeared;
            true
        } else {
            false
        }
    }

    /// Opens the outings. Returns whether they were due.
    pub fn on_unlock(&mut self) -> (b: bool)
        ensures
            b == (*old(self) == FriendEventState::Appeared),
            *final(self) == if b {
                FriendEventState::Unlocked
            } else {
                *old(self)
            },
    {
        if *self == FriendEventState::Appeared {
            *self = FriendEventState::Unlocked;
            true
        } else {
            false
        }
    }

    /// Goes on an outing. Returns whether one could take place.
    pub fn on_outing(&mut self) -> (b: bool)
        ensures
            b == (after_outing(*old(self)) is Some),
            *final(self) == match after_outing(*old(self)) {
                Some(s) => s,
                None => *old(self),
            },
    {
        match *self {
            FriendEventState::Unlocked => {
                *self = FriendEventState::Outing(1);
                true
            },
            FriendEventState::Outing(n) => {
                if n < 4 {
                    *self = FriendEventState::Outing(n + 1);
                    true
                } else if n == 4 {
                    *self = FriendEventState::Complete;
                    true
                } else {
                    false
                }
            },
            _ => false,
        }
    }
}

/// The state after a number of outings.
pub open spec fn after_outings(s: FriendEventState, n: nat) -> Option<FriendEventState>
    decreases n,
{
    if n == 0 {
        Some(s)
    } else {
        match after_outings(s, (n - 1) as nat) {
            Some(t) => after_outing(t),
            None => None,
        }
    }
}

/// Once outings are open, exactly five can take place; the fifth completes the story.
pub proof fn law_five_outings()
    ensures
        after_outings(FriendEventState::Unlocked, 4) == Some(FriendEventState::Outing(4)),
        after_outings(FriendEventState::Unlocked, 5) == Some(FriendEventState::Complete),
        after_outings(FriendEventState::Unlocked, 6) is None,
{
    reveal_with_fuel(after_outings, 7);
}

/// Hidden flavours gained at the start of a turn.
pub fn get_turn_special_feeling(turn: i32) -> (n: i32)
    ensures
        n == super::rules::turn_special(turn as int),
{
    super::rules::get_turn_special_feeling(turn)
}

/// The kinds shown at the five trainings: the first three in some order, the last two as drawn.
pub fn train_feeling_types(base: [i32; 3], fourth: i32, fifth: i32) -> (types: [i32; 5])
    ensures
        types@ == seq![base@[0], base@[1], base@[2], fourth, fifth],
{
    [base[0], base[1], base[2], fourth, fifth]
}

/// The numbers zero, one and two in some order.
pub open spec fn is_order_of_three(a: Seq<i32>) -> bool {
    &&& a.len() == 3
    &&& 0 <= a[0] < 3 && 0 <= a[1] < 3 && 0 <= a[2] < 3
    &&& a[0] != a[1] && a[0] != a[2] && a[1] != a[2]
}

proof fn lemma_order_of_three(a: Seq<i32>)
    requires
        a.to_multiset() == seq![0i32, 1, 2].to_multiset(),
    ensures
        is_order_of_three(a),
{
    let kinds = seq![0i32, 1, 2];
    a.to_multiset_ensures();
    kinds.to_multiset_ensures();
    kinds.lemma_multiset_has_no_duplicates();
    a.lemma_multiset_has_no_duplicates_conv();
    assert forall|i: int| 0 <= i < 3 implies 0 <= #[trigger] a[i] < 3 by {
        assert(a.contains(a[i]));
        assert(a.to_multiset().count(a[i]) > 0);
        assert(kinds.contains(a[i]));
    }
}

/// Every kind is shown at one of the first three trainings, and nothing else is shown.
pub open spec fn covers_all_kinds(types: Seq<i32>) -> bool {
    &&& types.len() == 5
    &&& is_order_of_three(types.take(3))
    &&& forall|i: int| 0 <= i < 5 ==> 0 <= #[trigger] types[i] < 3
}

/// Draws the kinds shown at the five trainings of a turn. Every kind is shown at least once.
pub fn assign_train_feeling_type(rng: &mut StdRng) -> (types: [i32; 5])
    ensures
        covers_all_kinds(types@),
{
    let kinds: [i32; 3] = [0, 1, 2];
    let base: [i32; 3] = shuffled(kinds, rng);
    proof {
        assert(kinds@ =~= seq![0i32, 1, 2]);
        lemma_order_of_three(base@);
    }
    let fourth: i32 = draw_below(3, rng);
    let fifth: i32 = draw_below(3, rng);
    let types: [i32; 5] = train_feeling_types(base, fourth, fifth);
    assert(types@.take(3) =~= base@);
    types
}

/// The event in which the friend is met.
pub const EVENT_FRIEND_APPEAR: u32 = 830305101;

/// The event in which the friend is met again.
pub const EVENT_FRIEND_CLICK: u32 = 830305102;

/// The event that opens the outings.
pub const EVENT_FRIEND_UNLOCK: u32 = 830305103;

/// Outings go on one by one once they are open: the first follows their opening, the fifth completes
/// them, and there is none before the opening or after the fifth.
pub proof fn law_outings_one_by_one(n: u8)
    ensures
        after_outing(FriendEventState::Unlocked) == Some(FriendEventState::Outing(1)),
        n < 4 ==> after_outing(FriendEventState::Outing(n)) == Some(
            FriendEventState::Outing((n + 1) as u8),
        ),
        after_outing(FriendEventState::Outing(4)) == Some(FriendEventState::Complete),
        n > 4 ==> after_outing(FriendEventState::Outing(n)) is None,
        after_outing(FriendEventState::NotAppear) is None,
        after_outing(FriendEventState::Appeared) is None,
        after_outing(FriendEventState::Complete) is None,
{
}

/// The kinds shown at the trainings: the first three trainings show the three kinds in some order, so
/// each kind is shown at least once; the last two show any.
pub proof fn law_every_kind_is_shown(types: Seq<i32>, k: i32)
    requires
        covers_all_kinds(types),
        0 <= k < 3,
    ensures
        types.len() == 5,
        types[0] == k || types[1] == k || types[2] == k,
        0 <= types[3] <= 2 && 0 <= types[4] <= 2,
{
    let a = types.take(3);
    assert(a[0] == types[0] && a[1] == types[1] && a[2] == types[2]);
}

} // verus!
