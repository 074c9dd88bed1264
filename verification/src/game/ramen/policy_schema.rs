use vstd::prelude::*;
use super::action::{
    combined_answers,
    combined_for,
    flavour_answers,
    legal_now,
    ActionView,
    OpView,
    Operation,
    RamenAction,
    TrainingType,
};
use super::rules::{ints, law_legal_list_is_complete, legal_list, legal_targets, special_order, sum3};
use super::{RamenStage, RamenState};
use crate::error::SimError;
use crate::gamedata::ramen::RamenScenarioData;

verus! {

/// Number of regions.
pub const REGION_NUM: usize = 20;

/// Number of ways to use hidden flavours: the triples with a sum of at most two.
pub const TRIPLE_NUM: usize = 10;

/// Number of basic operations.
pub const TRAIN_OP_NUM: usize = 10;

/// Number of options of the super ramen.
pub const SUPER_NUM: usize = 3;

/// Slot of eating nothing.
pub const EAT_NONE: usize = 0;

/// First slot of the bowls.
pub const EAT_BASE: usize = 1;

/// First slot of the basic operations.
pub const TRAIN_BASE: usize = 201;

/// First slot of the super ramen.
pub const SUPER_BASE: usize = 211;

/// First slot of the regions.
pub const REGION_SELECT_BASE: usize = 214;

/// Number of slots.
pub const POLICY_DIM: usize = 234;

/// The ways to use hidden flavours, in lexicographic order.
pub const TRIPLES: [[i32; 3]; 10] = [
    [0, 0, 0],
    [0, 0, 1],
    [0, 0, 2],
    [0, 1, 0],
    [0, 1, 1],
    [0, 2, 0],
    [1, 0, 0],
    [1, 0, 1],
    [1, 1, 0],
    [2, 0, 0],
];

/// The segments of the layout follow each other without gap or overlap.
pub proof fn law_layout_contiguous()
    ensures
        EAT_BASE == EAT_NONE + 1,
        TRAIN_BASE == EAT_BASE + REGION_NUM * TRIPLE_NUM,
        SUPER_BASE == TRAIN_BASE + TRAIN_OP_NUM,
        REGION_SELECT_BASE == SUPER_BASE + SUPER_NUM,
        POLICY_DIM == REGION_SELECT_BASE + REGION_NUM,
{
}

/// The slots that an action takes up.
#[derive(Debug, Clone, Copy, PartialEq, Eq)]
pub enum PolicySlots {
    /// One slot.
    One(usize),
    /// Three slots, for a pick of three regions.
    Three([usize; 3]),
}

impl PolicySlots {
    /// The slots as a list.
    pub open spec fn slots(&self) -> Seq<usize> {
        match self {
            PolicySlots::One(i) => seq![*i],
            PolicySlots::Three(a) => a@,
        }
    }

    /// The slots as a list.
    pub fn as_slice(&self) -> (v: Vec<usize>)
        ensures
            v@ == self.slots(),
    {
        let mut v: Vec<usize> = Vec::new();
        match self {
            PolicySlots::One(i) => {
                v.push(*i);
            },
            PolicySlots::Three(a) => {
                v.push(a[0]);
                v.push(a[1]);
                v.push(a[2]);
            },
        }
        assert(v@ =~= self.slots());
        v
    }
}

/// A triple of the table.
pub open spec fn is_triple(t: Seq<int>) -> bool {
    &&& t.len() == 3
    &&& t[0] >= 0 && t[1] >= 0 && t[2] >= 0
    &&& sum3(t) <= 2
}

/// Position of a triple in the table: how many triples come before it in lexicographic order.
pub open spec fn triple_pos(t: Seq<int>) -> int {
    if t[0] == 0 {
        if t[1] == 0 {
            t[2]
        } else if t[1] == 1 {
            3 + t[2]
        } else {
            5
        }
    } else if t[0] == 1 {
        6 + 2 * t[1] + t[2]
    } else {
        9
    }
}

/// The triple at a position of the table.
pub open spec fn triple_at(id: int) -> Seq<int> {
    ints(TRIPLES@[id])
}

/// Every position holds a triple, and the triple's position is that position.
proof fn lemma_triple_at(id: int)
    requires
        0 <= id < 10,
    ensures
        is_triple(triple_at(id)),
        triple_pos(triple_at(id)) == id,
{
    assert(TRIPLES@[id]@.len() == 3);
    assert(id == 0 || id == 1 || id == 2 || id == 3 || id == 4 || id == 5 || id == 6 || id == 7
        || id == 8 || id == 9);
}

/// Positions and triples stand for each other: the table holds every triple with a sum of at most
/// two exactly once.
pub proof fn law_triples_roundtrip(id: int, t: Seq<int>)
    ensures
        0 <= id < TRIPLE_NUM ==> is_triple(triple_at(id)) && triple_pos(triple_at(id)) == id,
        is_triple(t) ==> 0 <= triple_pos(t) < TRIPLE_NUM && triple_at(triple_pos(t)) == t,
{
    if 0 <= id < TRIPLE_NUM {
        lemma_triple_at(id);
    }
    if is_triple(t) {
        let u = triple_at(triple_pos(t));
        lemma_triple_at(triple_pos(t));
        assert(u =~= t);
    }
}

/// Position of a triple in the table.
///
/// Refused for triples with a negative number or a sum above two.
pub fn triple_id(t: [i32; 3]) -> (r: Result<usize, SimError>)
    ensures
        match r {
            Ok(id) => is_triple(ints(t)) && id == triple_pos(ints(t)) && id < TRIPLE_NUM,
            Err(e) => !is_triple(ints(t)) && e == SimError::Encoding,
        },
{
    if t[0] < 0 || t[1] < 0 || t[2] < 0 || t[0] > 2 || t[1] > 2 || t[2] > 2 {
        return Err(SimError::Encoding);
    }
    if t[0] + t[1] + t[2] > 2 {
        return Err(SimError::Encoding);
    }
    let id: i32 = if t[0] == 0 {
        if t[1] == 0 {
            t[2]
        } else if t[1] == 1 {
            3 + t[2]
        } else {
            5
        }
    } else if t[0] == 1 {
        6 + 2 * t[1] + t[2]
    } else {
        9
    };
    Ok(id as usize)
}

/// The triple at a position of the table. Refused beyond the table.
pub fn triple_of(id: usize) -> (r: Result<[i32; 3], SimError>)
    ensures
        match r {
            Ok(t) => id < TRIPLE_NUM && ints(t) == triple_at(id as int),
            Err(e) => id >= TRIPLE_NUM && e == SimError::Encoding,
        },
{
    if id >= TRIPLE_NUM {
        return Err(SimError::Encoding);
    }
    Ok(TRIPLES[id])
}

/// The legal choices of hidden flavours for any bowl all have a place in the table.
pub proof fn law_legal_choices_are_triples(stock: Seq<int>, special: int, recipe: Seq<int>, i: int)
    requires
        stock.len() == 3,
        recipe.len() == 3,
        0 <= i < legal_list(stock, special, recipe).len(),
    ensures
        is_triple(legal_list(stock, special, recipe)[i]),
{
    let list = legal_list(stock, special, recipe);
    assert(list.contains(list[i]));
    law_legal_list_is_complete(stock, special, recipe, list[i]);
}

/// Slot of a bowl with a use of hidden flavours, or of eating nothing.
pub open spec fn eat_slot(region: Option<usize>, targets: Option<Seq<int>>) -> Option<int> {
    match region {
        None => match targets {
            None => Some(EAT_NONE as int),
            Some(t) => if t == seq![0int, 0, 0] {
                Some(EAT_NONE as int)
            } else {
                None
            },
        },
        Some(r) => {
            let t = match targets {
                Some(t) => t,
                None => seq![0int, 0, 0],
            };
            if r < REGION_NUM && is_triple(t) {
                Some(EAT_BASE + r * TRIPLE_NUM + triple_pos(t))
            } else {
                None
            }
        },
    }
}

/// The use of hidden flavours of an action.
pub open spec fn targets_view(t: Option<[i32; 3]>) -> Option<Seq<int>> {
    match t {
        Some(a) => Some(ints(a)),
        None => None,
    }
}

/// Slot of a bowl with a use of hidden flavours, or of eating nothing. A bowl whose hidden flavours
/// are still open counts as one without any.
///
/// Refused for unknown regions, for uses outside the table, and for hidden flavours without a
/// bowl.
pub fn eat_index(region: Option<usize>, targets: Option<[i32; 3]>) -> (r: Result<usize, SimError>)
    ensures
        match r {
            Ok(i) => eat_slot(region, targets_view(targets)) == Some(i as int) && i < TRAIN_BASE,
            Err(e) => eat_slot(region, targets_view(targets)) is None && e == SimError::Encoding,
        },
{
    match region {
        None => match targets {
            None => Ok(EAT_NONE),
            Some(t) => {
                assert(ints(t)[0] == t@[0] && ints(t)[1] == t@[1] && ints(t)[2] == t@[2]);
                if t[0] == 0 && t[1] == 0 && t[2] == 0 {
                    assert(ints(t) =~= seq![0int, 0, 0]);
                    Ok(EAT_NONE)
                } else {
                    assert(ints(t) != seq![0int, 0, 0]) by {
                        let z = seq![0int, 0, 0];
                        assert(z[0] == 0 && z[1] == 0 && z[2] == 0);
                    }
                    Err(SimError::Encoding)
                }
            },
        },
        Some(rid) => {
            let t: [i32; 3] = match targets {
                Some(t) => t,
                None => [0, 0, 0],
            };
            assert(targets is None ==> ints(t) =~= seq![0int, 0, 0]);
            if rid >= REGION_NUM {
                return Err(SimError::Encoding);
            }
            match triple_id(t) {
                Ok(tid) => Ok(EAT_BASE + rid * TRIPLE_NUM + tid),
                Err(e) => Err(e),
            }
        },
    }
}

/// Slot of a basic operation.
pub open spec fn op_slot(op: OpView) -> Option<int> {
    match op {
        OpView::Train(t) => Some(TRAIN_BASE + t.idx()),
        OpView::Race => Some(TRAIN_BASE + 5),
        OpView::Rest => Some(TRAIN_BASE + 6),
        OpView::NormalOuting => Some(TRAIN_BASE + 7),
        OpView::FriendOuting => Some(TRAIN_BASE + 8),
        OpView::Clinic => Some(TRAIN_BASE + 9),
        _ => None,
    }
}

/// Slot of a basic operation. Refused for every other operation.
pub fn train_index(op: &Operation) -> (r: Result<usize, SimError>)
    ensures
        match r {
            Ok(i) => op_slot(op@) == Some(i as int) && TRAIN_BASE <= i < SUPER_BASE,
            Err(e) => op_slot(op@) is None && e == SimError::Encoding,
        },
{
    match op {
        Operation::Train(t) => Ok(TRAIN_BASE + t.index()),
        Operation::Race => Ok(TRAIN_BASE + 5),
        Operation::Rest => Ok(TRAIN_BASE + 6),
        Operation::NormalOuting => Ok(TRAIN_BASE + 7),
        Operation::FriendOuting => Ok(TRAIN_BASE + 8),
        Operation::Clinic => Ok(TRAIN_BASE + 9),
        _ => Err(SimError::Encoding),
    }
}

/// Slot of an option of the super ramen. Refused for unknown options.
pub fn super_index(idx: usize) -> (r: Result<usize, SimError>)
    ensures
        match r {
            Ok(i) => idx < SUPER_NUM && i == SUPER_BASE + idx,
            Err(e) => idx >= SUPER_NUM && e == SimError::Encoding,
        },
{
    if idx >= SUPER_NUM {
        return Err(SimError::Encoding);
    }
    Ok(SUPER_BASE + idx)
}

/// Slot of a region. Refused for unknown regions.
pub fn region_index(rid: usize) -> (r: Result<usize, SimError>)
    ensures
        match r {
            Ok(i) => rid < REGION_NUM && i == REGION_SELECT_BASE + rid,
            Err(e) => rid >= REGION_NUM && e == SimError::Encoding,
        },
{
    if rid >= REGION_NUM {
        return Err(SimError::Encoding);
    }
    Ok(REGION_SELECT_BASE + rid)
}

/// Three known regions, no two alike.
pub open spec fn regions_ok(ids: Seq<usize>) -> bool {
    &&& ids.len() == 3
    &&& ids[0] < REGION_NUM && ids[1] < REGION_NUM && ids[2] < REGION_NUM
    &&& ids[0] != ids[1] && ids[1] != ids[2] && ids[0] != ids[2]
}

/// The slots of an action at a stage; none where the two do not fit.
pub open spec fn slots_for(stage: RamenStage, act: ActionView) -> Option<Seq<int>> {
    match stage {
        RamenStage::RamenSelect | RamenStage::SpecialSelect => match eat_slot(
            act.ramen,
            act.special_targets,
        ) {
            Some(i) => Some(seq![i]),
            None => None,
        },
        RamenStage::Train => match op_slot(act.operation) {
            Some(i) => Some(seq![i]),
            None => None,
        },
        RamenStage::SuperRamenSelect => match act.operation {
            OpView::SuperRamenSelect(i) => if i < SUPER_NUM {
                Some(seq![SUPER_BASE + i])
            } else {
                None
            },
            _ => None,
        },
        RamenStage::RegionSelect => match act.operation {
            OpView::RegionSelect(ids) => if regions_ok(ids) {
                Some(
                    seq![
                        REGION_SELECT_BASE + ids[0],
                        REGION_SELECT_BASE + ids[1],
                        REGION_SELECT_BASE + ids[2],
                    ],
                )
            } else {
                None
            },
            _ => None,
        },
        _ => None,
    }
}

/// The slots as mathematical integers.
pub open spec fn slot_ints(s: Seq<usize>) -> Seq<int> {
    Seq::new(s.len(), |i: int| s[i] as int)
}

/// The slots of an action at a stage.
///
/// Refused where stage and action do not fit, and at stages without a decision.
pub fn slots_of(stage: RamenStage, act: &RamenAction) -> (r: Result<PolicySlots, SimError>)
    ensures
        match r {
            Ok(s) => slots_for(stage, act@) == Some(slot_ints(s.slots())),
            Err(e) => slots_for(stage, act@) is None && e == SimError::Encoding,
        },
{
    match stage {
        RamenStage::RamenSelect | RamenStage::SpecialSelect => match eat_index(
            act.ramen,
            act.special_targets,
        ) {
            Ok(i) => {
                let s: PolicySlots = PolicySlots::One(i);
                assert(slot_ints(s.slots()) =~= seq![i as int]);
                Ok(s)
            },
            Err(e) => Err(e),
        },
        RamenStage::Train => match train_index(&act.operation) {
            Ok(i) => {
                let s: PolicySlots = PolicySlots::One(i);
                assert(slot_ints(s.slots()) =~= seq![i as int]);
                Ok(s)
            },
            Err(e) => Err(e),
        },
        RamenStage::SuperRamenSelect => match act.operation {
            Operation::SuperRamenSelect(k) => match super_index(k) {
                Ok(i) => {
                    let s: PolicySlots = PolicySlots::One(i);
                    assert(slot_ints(s.slots()) =~= seq![i as int]);
                    Ok(s)
                },
                Err(e) => Err(e),
            },
            _ => Err(SimError::Encoding),
        },
        RamenStage::RegionSelect => match act.operation {
            Operation::RegionSelect(ids) => {
                assert(act@.operation == OpView::RegionSelect(ids@));
                let a: usize = match region_index(ids[0]) {
                    Ok(i) => i,
                    Err(e) => {
                        return Err(e);
                    },
                };
                let b: usize = match region_index(ids[1]) {
                    Ok(i) => i,
                    Err(e) => {
                        return Err(e);
                    },
                };
                let c: usize = match region_index(ids[2]) {
                    Ok(i) => i,
                    Err(e) => {
                        return Err(e);
                    },
                };
                if a == b || b == c || a == c {
                    return Err(SimError::Encoding);
                }
                let s: PolicySlots = PolicySlots::Three([a, b, c]);
                assert(slot_ints(s.slots()) =~= seq![
                    REGION_SELECT_BASE + ids@[0],
                    REGION_SELECT_BASE + ids@[1],
                    REGION_SELECT_BASE + ids@[2],
                ]);
                Ok(s)
            },
            _ => Err(SimError::Encoding),
        },
        _ => Err(SimError::Encoding),
    }
}

/// Every slot of an action lies within the layout.
pub proof fn law_slots_in_range(stage: RamenStage, act: ActionView, k: int)
    requires
        slots_for(stage, act) matches Some(s) && 0 <= k < s.len(),
    ensures
        0 <= slots_for(stage, act)->0[k] < POLICY_DIM,
{
}

/// Two bowls, each with its use of hidden flavours, share a slot only if they are the same; eating
/// nothing shares its slot with no bowl.
pub proof fn law_eat_slots_distinct(
    r1: usize,
    t1: Seq<int>,
    r2: usize,
    t2: Seq<int>,
)
    requires
        r1 < REGION_NUM,
        r2 < REGION_NUM,
        is_triple(t1),
        is_triple(t2),
    ensures
        eat_slot(Some(r1), Some(t1)) == eat_slot(Some(r2), Some(t2)) ==> r1 == r2 && t1 == t2,
        eat_slot(Some(r1), Some(t1)) != eat_slot(None, None),
{
    law_triples_roundtrip(0, t1);
    law_triples_roundtrip(0, t2);
}

/// Basic operations share a slot only if they are the same.
pub proof fn law_operation_slots_distinct(a: OpView, b: OpView)
    requires
        op_slot(a) is Some,
        op_slot(a) == op_slot(b),
    ensures
        a == b,
{
}

/// The region and the use of hidden flavours that a combined answer stands for.
pub open spec fn answer_at(
    data: &RamenScenarioData,
    state: &RamenState,
    regions: Seq<usize>,
    i: int,
) -> (int, int) {
    let n0 = combined_for(data, state, regions[0]).len();
    let n1 = combined_for(data, state, regions[1]).len();
    if i < 1 + n0 {
        (0, i - 1)
    } else if i < 1 + n0 + n1 {
        (1, i - 1 - n0)
    } else {
        (2, i - 1 - n0 - n1)
    }
}

proof fn lemma_answer_at(data: &RamenScenarioData, state: &RamenState, regions: Seq<usize>, i: int)
    requires
        regions.len() == 3,
        0 < i < combined_answers(data, state, regions).len(),
    ensures
        ({
            let (k, j) = answer_at(data, state, regions, i);
            let list = legal_now(data, state, regions[k]);
            &&& 0 <= k < 3
            &&& 0 <= j < list.len()
            &&& combined_answers(data, state, regions)[i] == ActionView::bowl_with(
                Some(regions[k]),
                list[j],
            )
            &&& is_triple(list[j])
        }),
{
    let (k, j) = answer_at(data, state, regions, i);
    let list = legal_now(data, state, regions[k]);
    assert(combined_for(data, state, regions[k]) == flavour_answers(list, regions[k]));
    law_legal_choices_are_triples(
        ints(state.feeling_stock),
        state.special_feeling as int,
        ints(data.recipe(regions[k] as int)),
        j,
    );
}

/// The combined answers to the question for a bowl all have a slot.
pub proof fn law_combined_answers_have_slots(
    data: &RamenScenarioData,
    state: &RamenState,
    regions: Seq<usize>,
    i: int,
)
    requires
        regions.len() == 3,
        forall|k: int| 0 <= k < 3 ==> #[trigger] regions[k] < REGION_NUM,
        0 <= i < combined_answers(data, state, regions).len(),
    ensures
        slots_for(RamenStage::RamenSelect, combined_answers(data, state, regions)[i]) is Some,
{
    if i > 0 {
        lemma_answer_at(data, state, regions, i);
    }
}

proof fn lemma_filter_distinct(s: Seq<Seq<int>>, pred: spec_fn(Seq<int>) -> bool)
    requires
        s.no_duplicates(),
    ensures
        s.filter(pred).no_duplicates(),
        forall|x: Seq<int>| #[trigger] s.filter(pred).contains(x) ==> s.contains(x),
    decreases s.len(),
{
    reveal(Seq::filter);
    if s.len() > 0 {
        let init = s.drop_last();
        assert(init.no_duplicates()) by {
            assert forall|a: int, b: int| 0 <= a < b < init.len() implies init[a] != init[b] by {
                assert(s[a] != s[b]);
            }
        }
        lemma_filter_distinct(init, pred);
        let f = init.filter(pred);
        assert(s.filter(pred) == if pred(s.last()) {
            f.push(s.last())
        } else {
            f
        });
        assert(!f.contains(s.last())) by {
            if f.contains(s.last()) {
                assert(init.contains(s.last()));
                let a = choose|a: int| 0 <= a < init.len() && init[a] == s.last();
                assert(s[a] == s[s.len() - 1]);
            }
        }
        assert forall|x: Seq<int>| #[trigger] s.filter(pred).contains(x) implies s.contains(x) by {
            let a = choose|a: int| 0 <= a < s.filter(pred).len() && s.filter(pred)[a] == x;
            if a < f.len() {
                assert(f.contains(f[a]));
                assert(init.contains(x));
                let b = choose|b: int| 0 <= b < init.len() && init[b] == x;
                assert(s[b] == x);
            } else {
                assert(s[s.len() - 1] == x);
            }
        }
        assert forall|a: int, b: int|
            0 <= a < b < s.filter(pred).len() implies s.filter(pred)[a] != s.filter(pred)[b] by {
            if b == f.len() {
                assert(f.contains(f[a]));
            }
        }
    }
}

/// Combined answers to the question for a bowl that are offered side by side never share a slot.
pub proof fn law_combined_answers_have_distinct_slots(
    data: &RamenScenarioData,
    state: &RamenState,
    regions: Seq<usize>,
    i: int,
    j: int,
)
    requires
        regions_ok(regions),
        0 <= i < j < combined_answers(data, state, regions).len(),
    ensures
        slots_for(RamenStage::RamenSelect, combined_answers(data, state, regions)[i]) != slots_for(
            RamenStage::RamenSelect,
            combined_answers(data, state, regions)[j],
        ),
{
    let all = combined_answers(data, state, regions);
    lemma_answer_at(data, state, regions, j);
    let (kj, nj) = answer_at(data, state, regions, j);
    let tj = legal_now(data, state, regions[kj])[nj];
    let sj = slots_for(RamenStage::RamenSelect, all[j]);
    assert(sj->0[0] == eat_slot(Some(regions[kj]), Some(tj))->0);
    if i == 0 {
        assert(slots_for(RamenStage::RamenSelect, all[0])->0[0] == EAT_NONE);
        law_triples_roundtrip(0, tj);
    } else {
        lemma_answer_at(data, state, regions, i);
        let (ki, ni) = answer_at(data, state, regions, i);
        let ti = legal_now(data, state, regions[ki])[ni];
        assert(slots_for(RamenStage::RamenSelect, all[i])->0[0] == eat_slot(
            Some(regions[ki]),
            Some(ti),
        )->0);
        law_eat_slots_distinct(regions[ki], ti, regions[kj], tj);
        if regions[ki] == regions[kj] {
            assert(ki == kj);
            let pred = |t: Seq<int>|
                legal_targets(
                    ints(state.feeling_stock),
                    state.special_feeling as int,
                    ints(data.recipe(regions[ki] as int)),
                    t,
                );
            lemma_order_distinct();
            lemma_filter_distinct(special_order(), pred);
        }
    }
}

proof fn lemma_order_distinct()
    ensures
        special_order().no_duplicates(),
{
    let s = special_order();
    assert forall|a: int, b: int| 0 <= a < b < s.len() implies s[a] != s[b] by {
        assert(s[a][0] != s[b][0] || s[a][1] != s[b][1] || s[a][2] != s[b][2]);
    }
}

/// The places of the answers: zero for no bowl, from one on ten for each region in the order of the
/// hidden flavours, then the trainings from two hundred and one on, race, rest, outings and doctor
/// after them, the three options of the super ramen, and the regions last.
pub proof fn law_places_of_answers(r: usize, t: Seq<int>)
    requires
        r < 20,
        is_triple(t),
    ensures
        eat_slot(None, None) == Some(0int),
        eat_slot(None, Some(seq![0int, 0, 0])) == Some(0int),
        eat_slot(Some(r), None) == Some(1 + 10 * r),
        eat_slot(Some(r), Some(t)) matches Some(i) && 1 + 10 * r <= i <= 10 + 10 * r,
        eat_slot(Some(20), Some(t)) is None,
        op_slot(OpView::Train(TrainingType::Speed)) == Some(201int),
        op_slot(OpView::Train(TrainingType::Stamina)) == Some(202int),
        op_slot(OpView::Train(TrainingType::Power)) == Some(203int),
        op_slot(OpView::Train(TrainingType::Guts)) == Some(204int),
        op_slot(OpView::Train(TrainingType::Wisdom)) == Some(205int),
        op_slot(OpView::Race) == Some(206int),
        op_slot(OpView::Rest) == Some(207int),
        op_slot(OpView::NormalOuting) == Some(208int),
        op_slot(OpView::FriendOuting) == Some(209int),
        op_slot(OpView::Clinic) == Some(210int),
        op_slot(OpView::StageOnly) is None,
{
    assert(is_triple(seq![0int, 0, 0]));
}

/// Hidden flavours are numbered in ascending order, the first kind weighing most.
pub proof fn law_triples_ascend(s: Seq<int>, t: Seq<int>)
    requires
        is_triple(s),
        is_triple(t),
    ensures
        triple_pos(s) < triple_pos(t) <==> s[0] < t[0] || (s[0] == t[0] && (s[1] < t[1] || (s[1] == t[1]
            && s[2] < t[2]))),
        triple_pos(seq![0int, 0, 0]) == 0,
        triple_pos(seq![2int, 0, 0]) == 9,
{
}

/// Each stage has its own places: bowls and flavours share theirs, and an answer that does not belong
/// to a stage has none there.
pub proof fn law_stages_have_their_places(act: ActionView)
    ensures
        slots_for(RamenStage::RamenSelect, act) == slots_for(RamenStage::SpecialSelect, act),
        slots_for(RamenStage::Train, act) matches Some(s) ==> s.len() == 1 && 201 <= s[0] <= 210,
        slots_for(RamenStage::RamenSelect, act) matches Some(s) ==> s.len() == 1 && 0 <= s[0] <= 200,
        slots_for(RamenStage::SuperRamenSelect, act) matches Some(s) ==> s.len() == 1 && 211 <= s[0]
            <= 213 && (act.operation matches OpView::SuperRamenSelect(k) && s[0] == 211 + k),
        slots_for(RamenStage::RegionSelect, act) matches Some(s) ==> s.len() == 3 && (
        act.operation matches OpView::RegionSelect(ids) && s[0] == 214 + ids[0] && s[1] == 214 + ids[1]
            && s[2] == 214 + ids[2] && ids[0] != ids[1] && ids[0] != ids[2] && ids[1] != ids[2]),
        slots_for(RamenStage::Begin, act) is None,
        slots_for(RamenStage::AfterTrain, act) is None,
{
}

} // verus!
