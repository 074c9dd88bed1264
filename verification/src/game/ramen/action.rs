use vstd::prelude::*;
use super::rules::{
    affordable,
    gaps,
    get_recipe,
    get_region_combinations,
    ints,
    is_combination,
    is_combination_list,
    law_legal_flavours,
    legal_list,
    legal_targets,
    list_special_targets_for,
    min_special_targets,
    recipe_fault,
    rows,
    sum3,
};
use super::{region_year, RamenState};
use crate::error::SimError;
use crate::gamedata::ramen::RamenScenarioData;

verus! {

/// The five trainings.
#[derive(Debug, Clone, Copy, PartialEq, Eq, Structural)]
pub enum TrainingType {
    Speed,
    Stamina,
    Power,
    Guts,
    Wisdom,
}

impl TrainingType {
    /// Position of the training.
    pub open spec fn idx(self) -> int {
        match self {
            TrainingType::Speed => 0,
            TrainingType::Stamina => 1,
            TrainingType::Power => 2,
            TrainingType::Guts => 3,
            TrainingType::Wisdom => 4,
        }
    }

    /// Position of the training.
    pub fn index(self) -> (i: usize)
        ensures
            i == self.idx(),
            i < 5,
    {
        match self {
            TrainingType::Speed => 0,
            TrainingType::Stamina => 1,
            TrainingType::Power => 2,
            TrainingType::Guts => 3,
            TrainingType::Wisdom => 4,
        }
    }
}

/// What can be done at a decision.
#[derive(Debug, Clone, Copy, PartialEq, Eq)]
pub enum Operation {
    /// Train.
    Train(TrainingType),
    /// Race.
    Race,
    /// Rest.
    Rest,
    /// Go out alone.
    NormalOuting,
    /// Go out with the friend.
    FriendOuting,
    /// See the doctor.
    Clinic,
    /// Settle only the stage's own question.
    StageOnly,
    /// Pick the regions of a year.
    RegionSelect([usize; 3]),
    /// Pick the super ramen.
    SuperRamenSelect(usize),
}

/// The same as a mathematical value.
#[verifier::ext_equal]
pub enum OpView {
    Train(TrainingType),
    Race,
    Rest,
    NormalOuting,
    FriendOuting,
    Clinic,
    StageOnly,
    RegionSelect(Seq<usize>),
    SuperRamenSelect(usize),
}

impl View for Operation {
    type V = OpView;

    open spec fn view(&self) -> OpView {
        match self {
            Operation::Train(t) => OpView::Train(*t),
            Operation::Race => OpView::Race,
            Operation::Rest => OpView::Rest,
            Operation::NormalOuting => OpView::NormalOuting,
            Operation::FriendOuting => OpView::FriendOuting,
            Operation::Clinic => OpView::Clinic,
            Operation::StageOnly => OpView::StageOnly,
            Operation::RegionSelect(r) => OpView::RegionSelect(r@),
            Operation::SuperRamenSelect(i) => OpView::SuperRamenSelect(*i),
        }
    }
}

/// An answer to a decision.
#[derive(Debug, Clone, Copy, PartialEq, Eq)]
pub struct RamenAction {
    /// What is done.
    pub operation: Operation,
    /// The bowl, if the decision is about one.
    pub ramen: Option<usize>,
    /// The hidden flavours, if the decision is about them.
    pub special_targets: Option<[i32; 3]>,
}

/// The same as a mathematical value.
#[verifier::ext_equal]
pub struct ActionView {
    pub operation: OpView,
    pub ramen: Option<usize>,
    pub special_targets: Option<Seq<int>>,
}

impl View for RamenAction {
    type V = ActionView;

    open spec fn view(&self) -> ActionView {
        ActionView {
            operation: self.operation@,
            ramen: self.ramen,
            special_targets: match self.special_targets {
                Some(t) => Some(ints(t)),
                None => None,
            },
        }
    }
}

impl ActionView {
    /// An operation without a bowl.
    pub open spec fn plain(op: OpView) -> ActionView {
        ActionView { operation: op, ramen: None, special_targets: None }
    }

    /// The answer to the question for a bowl.
    pub open spec fn bowl(ramen: Option<usize>) -> ActionView {
        ActionView { operation: OpView::StageOnly, ramen, special_targets: None }
    }

    /// The answer to the question for a bowl and its hidden flavours.
    pub open spec fn bowl_with(ramen: Option<usize>, t: Seq<int>) -> ActionView {
        ActionView { operation: OpView::StageOnly, ramen, special_targets: Some(t) }
    }
}

impl RamenAction {
    /// An operation without a bowl.
    pub fn new(operation: Operation) -> (a: RamenAction)
        ensures
            a@ == ActionView::plain(operation@),
            a.operation == operation,
    {
        RamenAction { operation, ramen: None, special_targets: None }
    }

    /// An operation without a bowl.
    pub fn no_ramen(operation: Operation) -> (a: RamenAction)
        ensures
            a@ == ActionView::plain(operation@),
            a.operation == operation,
    {
        RamenAction { operation, ramen: None, special_targets: None }
    }

    /// The answer to the question for a bowl.
    pub fn ramen_select(ramen: Option<usize>) -> (a: RamenAction)
        ensures
            a@ == ActionView::bowl(ramen),
    {
        RamenAction { operation: Operation::StageOnly, ramen, special_targets: None }
    }

    /// The answer to the question for the hidden flavours of a bowl.
    pub fn special_select(ramen_idx: usize, special_targets: [i32; 3]) -> (a: RamenAction)
        ensures
            a@ == ActionView::bowl_with(Some(ramen_idx), ints(special_targets)),
    {
        RamenAction {
            operation: Operation::StageOnly,
            ramen: Some(ramen_idx),
            special_targets: Some(special_targets),
        }
    }

    /// The answer to both questions at once. Without a bowl no hidden flavours are used.
    pub fn combined_select(ramen: Option<usize>, special_targets: [i32; 3]) -> (a: RamenAction)
        ensures
            a@ == ActionView::bowl_with(
                ramen,
                if ramen is Some {
                    ints(special_targets)
                } else {
                    seq![0int, 0, 0]
                },
            ),
    {
        let targets: [i32; 3] = match ramen {
            Some(_) => special_targets,
            None => [0, 0, 0],
        };
        assert(ramen is None ==> ints(targets) =~= seq![0int, 0, 0]);
        RamenAction {
            operation: Operation::StageOnly,
            ramen,
            special_targets: Some(targets),
        }
    }

    /// The pick of the super ramen.
    pub fn super_ramen_select(option: usize) -> (a: RamenAction)
        ensures
            a@ == ActionView::plain(OpView::SuperRamenSelect(option)),
            a.operation == Operation::SuperRamenSelect(option),
    {
        RamenAction::new(Operation::SuperRamenSelect(option))
    }
}

/// The actions of a list as mathematical values.
pub open spec fn action_views(v: Seq<RamenAction>) -> Seq<ActionView> {
    Seq::new(v.len(), |i: int| v[i]@)
}

proof fn lemma_views_push(v: Seq<RamenAction>, a: RamenAction)
    ensures
        action_views(v.push(a)) == action_views(v).push(a@),
{
    assert(action_views(v.push(a)) =~= action_views(v).push(a@));
}

/// An operation, or nothing.
pub open spec fn op_if(b: bool, op: OpView) -> Seq<ActionView> {
    if b {
        seq![ActionView::plain(op)]
    } else {
        Seq::empty()
    }
}

/// The operations of a turn: the trainings, a race where one can be picked, rest, outings, and the
/// doctor for the ill. During the summer camp there is neither an outing alone nor a doctor.
pub open spec fn train_actions(
    can_friend_outing: bool,
    is_ill: bool,
    is_xiahesu: bool,
    can_race: bool,
) -> Seq<ActionView> {
    op_if(true, OpView::Train(TrainingType::Speed)) + op_if(
        true,
        OpView::Train(TrainingType::Stamina),
    ) + op_if(true, OpView::Train(TrainingType::Power)) + op_if(
        true,
        OpView::Train(TrainingType::Guts),
    ) + op_if(true, OpView::Train(TrainingType::Wisdom)) + op_if(can_race, OpView::Race) + op_if(
        true,
        OpView::Rest,
    ) + op_if(!is_xiahesu, OpView::NormalOuting) + op_if(can_friend_outing, OpView::FriendOuting)
        + op_if(is_ill && !is_xiahesu, OpView::Clinic)
}

/// Adds an operation to a list, or nothing.
fn push_op_if(out: &mut Vec<RamenAction>, b: bool, op: Operation)
    ensures
        action_views(final(out)@) == action_views(old(out)@) + op_if(b, op@),
{
    let ghost before = out@;
    if b {
        let a: RamenAction = RamenAction::new(op);
        out.push(a);
        proof {
            lemma_views_push(before, a);
        }
        assert(action_views(out@) =~= action_views(before) + op_if(b, op@));
    } else {
        assert(action_views(out@) =~= action_views(before) + op_if(b, op@));
    }
}

/// The operations of a turn.
pub fn list_train_actions(
    can_friend_outing: bool,
    is_ill: bool,
    is_xiahesu: bool,
    can_race: bool,
) -> (out: Vec<RamenAction>)
    ensures
        action_views(out@) == train_actions(can_friend_outing, is_ill, is_xiahesu, can_race),
{
    let mut out: Vec<RamenAction> = Vec::new();
    assert(action_views(out@) =~= Seq::<ActionView>::empty());
    push_op_if(&mut out, true, Operation::Train(TrainingType::Speed));
    assert(action_views(out@) =~= op_if(true, OpView::Train(TrainingType::Speed)));
    push_op_if(&mut out, true, Operation::Train(TrainingType::Stamina));
    push_op_if(&mut out, true, Operation::Train(TrainingType::Power));
    push_op_if(&mut out, true, Operation::Train(TrainingType::Guts));
    push_op_if(&mut out, true, Operation::Train(TrainingType::Wisdom));
    push_op_if(&mut out, can_race, Operation::Race);
    push_op_if(&mut out, true, Operation::Rest);
    push_op_if(&mut out, !is_xiahesu, Operation::NormalOuting);
    push_op_if(&mut out, can_friend_outing, Operation::FriendOuting);
    push_op_if(&mut out, is_ill && !is_xiahesu, Operation::Clinic);
    out
}

/// Operations, each together with a bowl.
pub open spec fn with_bowl(actions: Seq<ActionView>, ramen: usize) -> Seq<ActionView> {
    Seq::new(actions.len(), |i: int| ActionView { ramen: Some(ramen), ..actions[i] })
}

/// Operations without a bowl, then with each of the bowls.
pub open spec fn bowl_actions(actions: Seq<ActionView>, ramens: Seq<usize>) -> Seq<ActionView>
    decreases ramens.len(),
{
    if ramens.len() == 0 {
        actions
    } else {
        bowl_actions(actions, ramens.drop_last()) + with_bowl(actions, ramens.last())
    }
}

/// The operations of a turn, without a bowl and with each of the available ones.
pub fn list_all_actions(
    available_ramens: &Vec<usize>,
    can_friend_outing: bool,
    is_ill: bool,
    is_xiahesu: bool,
    can_race: bool,
) -> (out: Vec<RamenAction>)
    ensures
        action_views(out@) == bowl_actions(
            train_actions(can_friend_outing, is_ill, is_xiahesu, can_race),
            available_ramens@,
        ),
{
    let plain: Vec<RamenAction> = list_train_actions(
        can_friend_outing,
        is_ill,
        is_xiahesu,
        can_race,
    );
    let ghost base = action_views(plain@);
    let mut out: Vec<RamenAction> = list_train_actions(
        can_friend_outing,
        is_ill,
        is_xiahesu,
        can_race,
    );
    let mut k: usize = 0;
    assert(available_ramens@.take(0) =~= Seq::<usize>::empty());
    while k < available_ramens.len()
        invariant
            k <= available_ramens@.len(),
            base == action_views(plain@),
            action_views(out@) == bowl_actions(base, available_ramens@.take(k as int)),
        decreases available_ramens@.len() - k,
    {
        let ghost start = action_views(out@);
        let r: usize = available_ramens[k];
        let mut i: usize = 0;
        assert(start =~= start + with_bowl(base, r).take(0));
        while i < plain.len()
            invariant
                i <= plain@.len(),
                base == action_views(plain@),
                action_views(out@) == start + with_bowl(base, r).take(i as int),
            decreases plain@.len() - i,
        {
            let ghost before = out@;
            let a: RamenAction = RamenAction {
                operation: plain[i].operation,
                ramen: Some(r),
                special_targets: plain[i].special_targets,
            };
            out.push(a);
            proof {
                lemma_views_push(before, a);
                assert(a@ =~= with_bowl(base, r)[i as int]);
                assert(with_bowl(base, r).take(i as int + 1) =~= with_bowl(base, r).take(
                    i as int,
                ).push(a@));
                assert(action_views(out@) =~= start + with_bowl(base, r).take(i as int + 1));
            }
            i = i + 1;
        }
        proof {
            assert(with_bowl(base, r).take(plain@.len() as int) =~= with_bowl(base, r));
            let next = available_ramens@.take(k as int + 1);
            assert(next.drop_last() =~= available_ramens@.take(k as int));
        }
        k = k + 1;
    }
    assert(available_ramens@.take(available_ramens@.len() as int) =~= available_ramens@);
    out
}

/// A bowl can be made now: its region has a proper recipe, and hidden flavours can fill the gaps.
pub open spec fn makeable(data: &RamenScenarioData, state: &RamenState, region: usize) -> bool {
    let recipe = ints(data.recipe(region as int));
    let stock = ints(state.feeling_stock);
    &&& recipe_fault(data, region) is None
    &&& legal_targets(stock, state.special_feeling as int, recipe, gaps(recipe, stock))
}

/// A bowl, or nothing.
pub open spec fn bowl_if(data: &RamenScenarioData, state: &RamenState, region: usize) -> Seq<usize> {
    if makeable(data, state, region) {
        seq![region]
    } else {
        Seq::empty()
    }
}

/// The bowls of the picked regions that can be made now.
pub open spec fn available(data: &RamenScenarioData, state: &RamenState, regions: Seq<usize>) -> Seq<usize> {
    bowl_if(data, state, regions[0]) + bowl_if(data, state, regions[1]) + bowl_if(
        data,
        state,
        regions[2],
    )
}

/// Adds a bowl to a list if it can be made.
fn push_makeable(data: &RamenScenarioData, state: &RamenState, region: usize, out: &mut Vec<usize>)
    requires
        data.recipes_valid(),
    ensures
        final(out)@ == old(out)@ + bowl_if(data, state, region),
{
    let ghost before = out@;
    let ok: bool = match get_recipe(data, region) {
        Ok(recipe) => match min_special_targets(state, recipe) {
            Some(_) => true,
            None => false,
        },
        Err(_) => false,
    };
    if ok {
        out.push(region);
    }
    assert(out@ =~= before + bowl_if(data, state, region));
}

/// The bowls of the picked regions that can be made now.
pub fn get_available_ramens(data: &RamenScenarioData, state: &RamenState, regions: &[usize; 3]) -> (out:
    Vec<usize>)
    requires
        data.recipes_valid(),
    ensures
        out@ == available(data, state, regions@),
{
    let mut out: Vec<usize> = Vec::new();
    push_makeable(data, state, regions[0], &mut out);
    assert(out@ =~= bowl_if(data, state, regions@[0]));
    push_makeable(data, state, regions[1], &mut out);
    push_makeable(data, state, regions[2], &mut out);
    out
}

/// The answers to the question for a bowl: none, then each that can be made.
pub open spec fn bowl_answers(data: &RamenScenarioData, state: &RamenState, regions: Seq<usize>) -> Seq<
    ActionView,
> {
    seq![ActionView::bowl(None)] + Seq::new(
        available(data, state, regions).len(),
        |i: int| ActionView::bowl(Some(available(data, state, regions)[i])),
    )
}

/// The answers to the question for a bowl.
pub fn list_ramen_select_actions(data: &RamenScenarioData, state: &RamenState, regions: &[usize; 3]) -> (out:
    Vec<RamenAction>)
    requires
        data.recipes_valid(),
    ensures
        action_views(out@) == bowl_answers(data, state, regions@),
{
    let bowls: Vec<usize> = get_available_ramens(data, state, regions);
    let ghost want = bowl_answers(data, state, regions@);
    let mut out: Vec<RamenAction> = Vec::new();
    out.push(RamenAction::ramen_select(None));
    let mut i: usize = 0;
    assert(action_views(out@) =~= want.take(1));
    while i < bowls.len()
        invariant
            i <= bowls@.len(),
            bowls@ == available(data, state, regions@),
            want == bowl_answers(data, state, regions@),
            action_views(out@) == want.take(i as int + 1),
        decreases bowls@.len() - i,
    {
        let ghost before = out@;
        let a: RamenAction = RamenAction::ramen_select(Some(bowls[i]));
        out.push(a);
        proof {
            lemma_views_push(before, a);
            assert(want.take(i as int + 2) =~= want.take(i as int + 1).push(a@));
        }
        i = i + 1;
    }
    assert(want.take(want.len() as int) =~= want);
    out
}

/// The answers to the question for the hidden flavours of a bowl.
pub open spec fn flavour_answers(list: Seq<Seq<int>>, ramen_idx: usize) -> Seq<ActionView> {
    Seq::new(list.len(), |i: int| ActionView::bowl_with(Some(ramen_idx), list[i]))
}

/// The legal choices of hidden flavours for a region's bowl now.
pub open spec fn legal_now(data: &RamenScenarioData, state: &RamenState, region: usize) -> Seq<Seq<int>> {
    legal_list(
        ints(state.feeling_stock),
        state.special_feeling as int,
        ints(data.recipe(region as int)),
    )
}

/// Adds an answer for each choice of hidden flavours.
fn push_flavours(list: &Vec<[i32; 3]>, ramen_idx: usize, out: &mut Vec<RamenAction>)
    ensures
        action_views(final(out)@) == action_views(old(out)@) + flavour_answers(
            rows(list@),
            ramen_idx,
        ),
{
    let ghost start = action_views(out@);
    let ghost want = flavour_answers(rows(list@), ramen_idx);
    let mut i: usize = 0;
    assert(start =~= start + want.take(0));
    while i < list.len()
        invariant
            i <= list@.len(),
            want == flavour_answers(rows(list@), ramen_idx),
            action_views(out@) == start + want.take(i as int),
        decreases list@.len() - i,
    {
        let ghost before = out@;
        let a: RamenAction = RamenAction::special_select(ramen_idx, list[i]);
        out.push(a);
        proof {
            lemma_views_push(before, a);
            assert(want.take(i as int + 1) =~= want.take(i as int).push(a@));
            assert(action_views(out@) =~= start + want.take(i as int + 1));
        }
        i = i + 1;
    }
    assert(want.take(want.len() as int) =~= want);
}

/// The answers to the question for the hidden flavours of a bowl.
///
/// Refused where there is no such region, and where its recipe does not cost the fixed number of
/// points.
pub fn list_special_select_actions(data: &RamenScenarioData, state: &RamenState, ramen_idx: usize) -> (r:
    Result<Vec<RamenAction>, SimError>)
    requires
        data.recipes_valid(),
    ensures
        match r {
            Ok(out) => {
                &&& recipe_fault(data, ramen_idx) is None
                &&& action_views(out@) == flavour_answers(
                    legal_now(data, state, ramen_idx),
                    ramen_idx,
                )
            },
            Err(e) => recipe_fault(data, ramen_idx) == Some(e),
        },
{
    match list_special_targets_for(data, state, ramen_idx) {
        Ok(list) => {
            let mut out: Vec<RamenAction> = Vec::new();
            push_flavours(&list, ramen_idx, &mut out);
            assert(action_views(out@) =~= flavour_answers(
                legal_now(data, state, ramen_idx),
                ramen_idx,
            ));
            Ok(out)
        },
        Err(e) => Err(e),
    }
}

/// The answers to both questions for one region.
pub open spec fn combined_for(data: &RamenScenarioData, state: &RamenState, region: usize) -> Seq<
    ActionView,
> {
    if recipe_fault(data, region) is None {
        flavour_answers(legal_now(data, state, region), region)
    } else {
        Seq::empty()
    }
}

/// The answers to both questions at once: no bowl, then each bowl with each of its legal choices.
pub open spec fn combined_answers(data: &RamenScenarioData, state: &RamenState, regions: Seq<usize>) -> Seq<
    ActionView,
> {
    seq![ActionView::bowl_with(None, seq![0int, 0, 0])] + combined_for(data, state, regions[0])
        + combined_for(data, state, regions[1]) + combined_for(data, state, regions[2])
}

/// Adds the answers to both questions for one region.
fn push_combined(data: &RamenScenarioData, state: &RamenState, region: usize, out: &mut Vec<RamenAction>)
    requires
        data.recipes_valid(),
    ensures
        action_views(final(out)@) == action_views(old(out)@) + combined_for(data, state, region),
{
    let ghost before = action_views(out@);
    match list_special_targets_for(data, state, region) {
        Ok(list) => {
            push_flavours(&list, region, out);
        },
        Err(_) => {
            assert(action_views(out@) =~= before + combined_for(data, state, region));
        },
    }
}

/// The answers to both questions at once.
pub fn list_combined_ramen_select_actions(
    data: &RamenScenarioData,
    state: &RamenState,
    regions: &[usize; 3],
) -> (out: Vec<RamenAction>)
    requires
        data.recipes_valid(),
    ensures
        action_views(out@) == combined_answers(data, state, regions@),
{
    let mut out: Vec<RamenAction> = Vec::new();
    out.push(RamenAction::combined_select(None, [0, 0, 0]));
    assert(action_views(out@) =~= seq![ActionView::bowl_with(None, seq![0int, 0, 0])]);
    push_combined(data, state, regions[0], &mut out);
    push_combined(data, state, regions[1], &mut out);
    push_combined(data, state, regions[2], &mut out);
    out
}

/// How the regions of the third year are found.
#[derive(Debug, Clone, Copy, PartialEq, Eq, Structural)]
pub enum RamenRegionStrategy {
    /// Every combination is offered.
    All,
    /// The first combination of a fixed table is taken.
    Fixed,
}

/// The fixed table decides.
pub open spec fn fixed_decides(year_idx: int, strategy: RamenRegionStrategy) -> bool {
    year_idx == 2 && strategy == RamenRegionStrategy::Fixed
}

/// The combinations of regions that are offered for a year: all of them, or, in the third year
/// under the fixed strategy, the first of the table alone.
///
/// A missing or empty table is refused, never replaced by all combinations.
pub fn region_select_combos(
    year_idx: usize,
    strategy: RamenRegionStrategy,
    fixed: Option<&Vec<[usize; 3]>>,
) -> (r: Result<Vec<[usize; 3]>, SimError>)
    ensures
        match r {
            Ok(list) => if fixed_decides(year_idx as int, strategy) {
                &&& fixed matches Some(table)
                &&& table@.len() > 0
                &&& list@ == seq![table@[0]]
            } else {
                year_idx < 3 && is_combination_list(year_idx as int, list@)
            },
            Err(e) => if fixed_decides(year_idx as int, strategy) {
                &&& fixed matches Some(table) ==> table@.len() == 0
                &&& e == SimError::NoFixedRegions
            } else {
                year_idx >= 3 && e == (SimError::YearOutOfRange { year_idx })
            },
        },
{
    if year_idx == 2 && strategy == RamenRegionStrategy::Fixed {
        match fixed {
            Some(table) => {
                if table.len() == 0 {
                    return Err(SimError::NoFixedRegions);
                }
                let mut list: Vec<[usize; 3]> = Vec::new();
                list.push(table[0]);
                assert(list@ =~= seq![table@[0]]);
                Ok(list)
            },
            None => Err(SimError::NoFixedRegions),
        }
    } else {
        get_region_combinations(year_idx)
    }
}

/// One action for each combination of regions.
pub open spec fn region_answers(combos: Seq<[usize; 3]>) -> Seq<ActionView> {
    Seq::new(combos.len(), |i: int| ActionView::plain(OpView::RegionSelect(combos[i]@)))
}

/// The regions that a turn's pick offers.
pub open spec fn region_offer(
    turn: int,
    strategy: RamenRegionStrategy,
    fixed: Option<&Vec<[usize; 3]>>,
    combos: Seq<[usize; 3]>,
) -> bool {
    &&& region_year(turn) matches Some(y)
    &&& if fixed_decides(y, strategy) {
        &&& fixed matches Some(table)
        &&& table@.len() > 0
        &&& combos == seq![table@[0]]
    } else {
        is_combination_list(y, combos)
    }
}

/// The answers to the question for the regions of a year.
///
/// Refused on turns without such a question, and where the fixed table is needed but missing or
/// empty.
pub fn list_region_select_actions(
    turn: i32,
    strategy: RamenRegionStrategy,
    fixed: Option<&Vec<[usize; 3]>>,
) -> (r: Result<Vec<RamenAction>, SimError>)
    ensures
        match r {
            Ok(out) => exists|combos: Seq<[usize; 3]>| #[trigger]
                region_offer(turn as int, strategy, fixed, combos) && action_views(out@)
                    == region_answers(combos),
            Err(e) => match region_year(turn as int) {
                None => e == (SimError::TurnOutOfRange { turn }),
                Some(y) => {
                    &&& fixed_decides(y, strategy)
                    &&& fixed matches Some(table) ==> table@.len() == 0
                    &&& e == SimError::NoFixedRegions
                },
            },
        },
{
    let year_idx: usize = match RamenState::region_archive_year_idx(turn) {
        Ok(y) => y,
        Err(e) => {
            return Err(e);
        },
    };
    let combos: Vec<[usize; 3]> = match region_select_combos(year_idx, strategy, fixed) {
        Ok(c) => c,
        Err(e) => {
            return Err(e);
        },
    };
    let ghost want = region_answers(combos@);
    let mut out: Vec<RamenAction> = Vec::new();
    let mut i: usize = 0;
    assert(action_views(out@) =~= want.take(0));
    while i < combos.len()
        invariant
            i <= combos@.len(),
            want == region_answers(combos@),
            action_views(out@) == want.take(i as int),
        decreases combos@.len() - i,
    {
        let ghost before = out@;
        let a: RamenAction = RamenAction::no_ramen(Operation::RegionSelect(combos[i]));
        out.push(a);
        proof {
            lemma_views_push(before, a);
            assert(want.take(i as int + 1) =~= want.take(i as int).push(a@));
        }
        i = i + 1;
    }
    assert(want.take(want.len() as int) =~= want);
    assert(region_offer(turn as int, strategy, fixed, combos@));
    Ok(out)
}

/// One action for each option of the super ramen.
pub open spec fn super_answers(n: nat) -> Seq<ActionView> {
    Seq::new(n, |i: int| ActionView::plain(OpView::SuperRamenSelect(i as usize)))
}

/// The answers to the question for the super ramen.
pub fn list_super_ramen_select_actions(data: &RamenScenarioData) -> (out: Vec<RamenAction>)
    ensures
        action_views(out@) == super_answers(data.finals_effect.training_limit_options@.len()),
{
    let n: usize = data.finals_effect.training_limit_options.len();
    let ghost want = super_answers(n as nat);
    let mut out: Vec<RamenAction> = Vec::new();
    let mut i: usize = 0;
    assert(action_views(out@) =~= want.take(0));
    while i < n
        invariant
            i <= n,
            want == super_answers(n as nat),
            action_views(out@) == want.take(i as int),
        decreases n - i,
    {
        let ghost before = out@;
        let a: RamenAction = RamenAction::super_ramen_select(i);
        out.push(a);
        proof {
            lemma_views_push(before, a);
            assert(want.take(i as int + 1) =~= want.take(i as int).push(a@));
        }
        i = i + 1;
    }
    assert(want.take(want.len() as int) =~= want);
    out
}

/// Every combined answer that eats a bowl can be paid for: its hidden flavours are legal for the
/// bowl and stock and hidden flavours suffice.
pub proof fn law_combined_answers_are_affordable(
    data: &RamenScenarioData,
    state: &RamenState,
    regions: Seq<usize>,
    i: int,
)
    requires
        regions.len() == 3,
        0 < i < combined_answers(data, state, regions).len(),
    ensures
        ({
            let a = combined_answers(data, state, regions)[i];
            &&& a.ramen matches Some(r)
            &&& regions.contains(r)
            &&& a.special_targets matches Some(t)
            &&& affordable(
                ints(state.feeling_stock),
                state.special_feeling as int,
                ints(data.recipe(r as int)),
                t,
            )
            &&& sum3(t) <= 2
        }),
{
    let c0 = combined_for(data, state, regions[0]);
    let c1 = combined_for(data, state, regions[1]);
    let c2 = combined_for(data, state, regions[2]);
    let (r, k) = if i < 1 + c0.len() {
        (regions[0], i - 1)
    } else if i < 1 + c0.len() + c1.len() {
        (regions[1], i - 1 - c0.len())
    } else {
        (regions[2], i - 1 - c0.len() - c1.len())
    };
    let list = legal_now(data, state, r);
    let t = list[k];
    assert(combined_answers(data, state, regions)[i] == ActionView::bowl_with(Some(r), t));
    assert(list.contains(t));
    super::rules::law_legal_list_is_complete(
        ints(state.feeling_stock),
        state.special_feeling as int,
        ints(data.recipe(r as int)),
        t,
    );
}

/// A bowl is offered exactly if some legal choice of hidden flavours exists for it.
pub proof fn law_makeable_iff_legal_choice(data: &RamenScenarioData, state: &RamenState, region: usize)
    requires
        recipe_fault(data, region) is None,
    ensures
        makeable(data, state, region) <==> legal_now(data, state, region).len() > 0,
{
    let recipe = ints(data.recipe(region as int));
    let stock = ints(state.feeling_stock);
    let special = state.special_feeling as int;
    let list = legal_now(data, state, region);
    if makeable(data, state, region) {
        super::rules::law_legal_list_is_complete(stock, special, recipe, gaps(recipe, stock));
        let i = choose|i: int| 0 <= i < list.len() && list[i] == gaps(recipe, stock);
        assert(0 <= i < list.len());
    }
    if list.len() > 0 {
        super::rules::law_legal_list_is_complete(stock, special, recipe, list[0]);
        assert(list.contains(list[0]));
    }
}

/// Operations with bowls: every operation without a bowl, and every operation with each of the bowls,
/// and nothing else.
pub proof fn law_operations_with_bowls(
    actions: Seq<ActionView>,
    ramens: Seq<usize>,
    op: OpView,
    r: usize,
)
    requires
        forall|i: int|
            0 <= i < actions.len() ==> (#[trigger] actions[i]).ramen is None
                && actions[i].special_targets is None,
    ensures
        bowl_actions(actions, ramens).contains(
            (ActionView { operation: op, ramen: None, special_targets: None }),
        ) <==> exists|i: int| 0 <= i < actions.len() && (#[trigger] actions[i]).operation == op,
        bowl_actions(actions, ramens).contains(
            (ActionView { operation: op, ramen: Some(r), special_targets: None }),
        ) <==> ramens.contains(r) && exists|i: int|
            0 <= i < actions.len() && (#[trigger] actions[i]).operation == op,
        bowl_actions(actions, ramens).len() == actions.len() * (1 + ramens.len()),
    decreases ramens.len(),
{
    let plain = ActionView { operation: op, ramen: None, special_targets: None };
    let with = ActionView { operation: op, ramen: Some(r), special_targets: None };
    let n = actions.len();
    if ramens.len() == 0 {
        assert(n * (1 + 0) == n) by (nonlinear_arith);
        if exists|i: int| 0 <= i < actions.len() && (#[trigger] actions[i]).operation == op {
            let i = choose|i: int| 0 <= i < actions.len() && (#[trigger] actions[i]).operation == op;
            assert(actions[i] == plain);
        }
        if actions.contains(plain) {
            let i = choose|i: int| 0 <= i < actions.len() && actions[i] == plain;
            assert(actions[i].operation == op);
        }
    } else {
        let rest = ramens.drop_last();
        let last = ramens.last();
        law_operations_with_bowls(actions, rest, op, r);
        let a = bowl_actions(actions, rest);
        let b = with_bowl(actions, last);
        lemma_in_either(a, b, plain);
        lemma_in_either(a, b, with);
        assert(ramens =~= rest.push(last));
        assert(ramens.contains(r) <==> rest.contains(r) || last == r) by {
            if rest.contains(r) {
                let k = choose|k: int| 0 <= k < rest.len() && rest[k] == r;
                assert(ramens[k] == r);
            }
            if last == r {
                assert(ramens[ramens.len() - 1] == r);
            }
            if ramens.contains(r) && last != r {
                let k = choose|k: int| 0 <= k < ramens.len() && ramens[k] == r;
                assert(rest[k] == r);
            }
        }
        if b.contains(with) {
            let i = choose|i: int| 0 <= i < b.len() && b[i] == with;
            assert(actions[i].operation == op);
        }
        if last == r && exists|i: int|
            0 <= i < actions.len() && (#[trigger] actions[i]).operation == op {
            let i = choose|i: int| 0 <= i < actions.len() && (#[trigger] actions[i]).operation == op;
            assert(b[i] == with);
        }
        if b.contains(plain) {
            let i = choose|i: int| 0 <= i < b.len() && b[i] == plain;
            assert(b[i].ramen == Some(last));
        }
        let m = ramens.len() as int;
        assert(n * (1 + m) == n * (1 + (m - 1)) + n) by (nonlinear_arith);
    }
}

/// An answer stands in two lists together if it stands in one of them.
pub proof fn lemma_in_either(s: Seq<ActionView>, t: Seq<ActionView>, a: ActionView)
    ensures
        (s + t).contains(a) <==> s.contains(a) || t.contains(a),
{
    if s.contains(a) {
        let k = choose|k: int| 0 <= k < s.len() && s[k] == a;
        assert((s + t)[k] == a);
    }
    if t.contains(a) {
        let k = choose|k: int| 0 <= k < t.len() && t[k] == a;
        assert((s + t)[s.len() + k] == a);
    }
    if (s + t).contains(a) {
        let k = choose|k: int| 0 <= k < (s + t).len() && (s + t)[k] == a;
        if k < s.len() {
            assert(s[k] == a);
        } else {
            assert(t[k - s.len()] == a);
        }
    }
}

/// The pick of bowl and hidden flavours at once always allows neither, and offers each region of the
/// year with all flavours with which it can be made now.
pub proof fn law_combined_answers(
    data: &RamenScenarioData,
    state: &RamenState,
    regions: Seq<usize>,
    k: int,
    t: Seq<int>,
)
    requires
        regions.len() == 3,
        0 <= k < 3,
        t.len() == 3,
        state.feeling_stock@[0] >= 0 && state.feeling_stock@[1] >= 0 && state.feeling_stock@[2] >= 0,
    ensures
        combined_answers(data, state, regions)[0] == (ActionView {
            operation: OpView::StageOnly,
            ramen: None,
            special_targets: Some(seq![0int, 0, 0]),
        }),
        ({
            let recipe = data.recipe(regions[k] as int)@;
            &&& regions[k] < 20
            &&& recipe[0] + recipe[1] + recipe[2] == 5
            &&& 0 <= t[0] <= recipe[0] && 0 <= t[1] <= recipe[1] && 0 <= t[2] <= recipe[2]
            &&& state.feeling_stock@[0] + t[0] >= recipe[0]
            &&& state.feeling_stock@[1] + t[1] >= recipe[1]
            &&& state.feeling_stock@[2] + t[2] >= recipe[2]
            &&& t[0] + t[1] + t[2] <= 2
            &&& t[0] + t[1] + t[2] <= state.special_feeling
        }) ==> combined_answers(data, state, regions).contains(
            (ActionView {
                operation: OpView::StageOnly,
                ramen: Some(regions[k]),
                special_targets: Some(t),
            }),
        ),
{
    let all = combined_answers(data, state, regions);
    let none = seq![ActionView::bowl_with(None, seq![0int, 0, 0])];
    let c0 = combined_for(data, state, regions[0]);
    let c1 = combined_for(data, state, regions[1]);
    let c2 = combined_for(data, state, regions[2]);
    let want = ActionView::bowl_with(Some(regions[k]), t);
    let stock = ints(state.feeling_stock);
    let recipe = ints(data.recipe(regions[k] as int));
    law_legal_flavours(stock, state.special_feeling as int, recipe, t);
    let list = legal_now(data, state, regions[k]);
    if recipe_fault(data, regions[k]) is None && list.contains(t) {
        let i = choose|i: int| 0 <= i < list.len() && list[i] == t;
        let own = combined_for(data, state, regions[k]);
        assert(own[i] == want);
        assert(own.contains(want));
    }
    lemma_in_either(none, c0, want);
    lemma_in_either(none + c0, c1, want);
    lemma_in_either(none + c0 + c1, c2, want);
}

/// The options of the super ramen are offered one by one in their order.
pub proof fn law_super_options_in_order(n: nat, i: int)
    requires
        0 <= i < n <= usize::MAX,
    ensures
        super_answers(n).len() == n,
        super_answers(n)[i].operation == OpView::SuperRamenSelect(i as usize),
        super_answers(n)[i].ramen is None,
{
}

/// Regions are offered as combinations: in the third year with a fixed table the first of the table
/// alone, otherwise three of the year's regions, the smallest first.
pub proof fn law_region_offers(
    turn: int,
    strategy: RamenRegionStrategy,
    fixed: Option<&Vec<[usize; 3]>>,
    combos: Seq<[usize; 3]>,
    i: int,
)
    requires
        region_offer(turn, strategy, fixed, combos),
        0 <= i < combos.len(),
    ensures
        turn == 2 || turn == 23 || turn == 47,
        turn == 47 && strategy == RamenRegionStrategy::Fixed ==> (fixed matches Some(table) && combos
            =~= seq![table@[0]]),
        turn == 2 ==> combos[i]@[0] < combos[i]@[1] < combos[i]@[2] <= 4,
        turn == 23 ==> 5 <= combos[i]@[0] < combos[i]@[1] < combos[i]@[2] <= 9,
        turn == 47 && strategy != RamenRegionStrategy::Fixed ==> 10 <= combos[i]@[0]
            < combos[i]@[1] < combos[i]@[2] <= 19,
{
    if !(turn == 47 && strategy == RamenRegionStrategy::Fixed) {
        assert(is_combination(region_year(turn)->0, combos[i]@));
    }
}

} // verus!
