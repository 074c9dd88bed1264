use vstd::prelude::*;
use super::action::{OpView, Operation, RamenAction, TrainingType};
use super::rules::{get_region_range, get_super_ramen_clone_train_options, region_first, sum3};
use super::RamenGame;
use crate::error::SimError;
use crate::game::base::state::camp_turn;
use crate::game::uma::{races_between, span_at, Uma};
use crate::gamedata::constants::GameConstants;
use crate::gamedata::ramen::{RamenScenarioData, RegionEffect};
use crate::gamedata::uma::{bit, has_bit, FreeRaceData, UmaData};
use crate::text::{append_int, dec};

verus! {

// ========== Choosing among scored answers ==========

/// An answer has the highest score, and none before it has the same; the first where there is
/// none at all.
pub open spec fn best(scores: Seq<i64>, i: int) -> bool {
    if scores.len() == 0 {
        i == 0
    } else {
        &&& 0 <= i < scores.len()
        &&& forall|j: int| 0 <= j < scores.len() ==> #[trigger] scores[j] <= scores[i]
        &&& forall|j: int| 0 <= j < i ==> #[trigger] scores[j] < scores[i]
    }
}

/// The answer with the highest score; the first of several.
pub fn argmax_index(scores: &Vec<i64>) -> (i: usize)
    ensures
        best(scores@, i as int),
{
    let mut top: usize = 0;
    let mut i: usize = 1;
    while i < scores.len()
        invariant
            1 <= i,
            scores@.len() > 0 ==> top < i <= scores@.len(),
            scores@.len() == 0 ==> top == 0,
            scores@.len() > 0 ==> forall|j: int| 0 <= j < i ==> #[trigger] scores@[j] <= scores@[top as int],
            scores@.len() > 0 ==> forall|j: int| 0 <= j < top ==> #[trigger] scores@[j] < scores@[top as int],
        decreases scores@.len() - i,
    {
        if scores[i] > scores[top] {
            top = i;
        }
        i = i + 1;
    }
    top
}

/// The choice does not depend on anything but the scores: two best answers are the same.
pub proof fn law_choice_is_determined(scores: Seq<i64>, a: int, b: int)
    requires
        best(scores, a),
        best(scores, b),
    ensures
        a == b,
{
    if scores.len() > 0 {
        if a < b {
            assert(scores[a] < scores[b]);
        }
        if b < a {
            assert(scores[b] < scores[a]);
        }
    }
}

// ========== Freely chosen races ==========

/// How many bits of a mask are set from one position up to another.
pub open spec fn bits_between(mask: u64, low: int, high: int) -> int
    decreases high - low,
{
    if high <= low {
        0
    } else {
        bits_between(mask, low, high - 1) + if bit(mask, (high - 1) as u64) {
            1int
        } else {
            0
        }
    }
}

/// The larger of two numbers.
pub open spec fn larger(a: int, b: int) -> int {
    if a < b {
        b
    } else {
        a
    }
}

/// The turns from this one on that count for a span. Freely chosen races are run on turns 13 to
/// 71 only; bit `b` of the mask stands for turn `b + 11`.
pub open spec fn slots_left(mask: u64, turn: int) -> int {
    bits_between(mask, larger(2, turn - 11), 61)
}

/// A race on this turn counts for a span.
pub open spec fn qualified(mask: u64, turn: int) -> bool {
    11 <= turn < 75 && bit(mask, (turn - 11) as u64)
}

/// The races that a span still lacks.
pub open spec fn races_lacking(win_races: u64, free: FreeRaceData) -> int {
    larger(free.count - races_between(win_races, free.mask, 64), 0)
}

/// The turns from this one on that count for a span.
pub fn remaining_race_slots(turn: i32, free: &FreeRaceData) -> (n: u32)
    ensures
        n == slots_left(free.mask, turn as int),
        n <= 59,
{
    let low: u64 = if turn <= 13 {
        2
    } else {
        (turn as u64) - 11
    };
    let mut n: u32 = 0;
    let mut b: u64 = low;
    while b < 61
        invariant
            low == larger(2, turn - 11),
            low <= b,
            b <= 61 || b == low,
            n == bits_between(free.mask, low as int, b as int),
            n <= b - low,
        decreases 61 - b,
    {
        if has_bit(free.mask, b) {
            n = n + 1;
        }
        b = b + 1;
    }
    n
}

/// Whether a race on this turn counts for a span.
pub fn race_turn_qualified(turn: i32, free: &FreeRaceData) -> (b: bool)
    ensures
        b == qualified(free.mask, turn as int),
{
    if turn < 11 || turn >= 75 {
        return false;
    }
    has_bit(free.mask, (turn - 11) as u64)
}

/// The races that a span still lacks.
fn races_needed(uma: &Uma, free: &FreeRaceData) -> (n: u32)
    ensures
        n == races_lacking(uma.win_races, *free),
{
    let run: u32 = uma.count_free_race(free);
    if free.count > run {
        free.count - run
    } else {
        0
    }
}

proof fn lemma_bits_start(mask: u64, low: int, high: int)
    requires
        low < high,
    ensures
        bits_between(mask, low, high) == bits_between(mask, low + 1, high) + if bit(
            mask,
            low as u64,
        ) {
            1int
        } else {
            0
        },
    decreases high - low,
{
    if low + 1 < high {
        lemma_bits_start(mask, low, high - 1);
    } else {
        reveal_with_fuel(bits_between, 2);
    }
}

/// A turn that passes takes one of the turns that count for a span if it counts itself, and none
/// otherwise.
pub proof fn law_slots_pass_with_the_turns(mask: u64, turn: int)
    requires
        13 <= turn <= 71,
    ensures
        slots_left(mask, turn) == slots_left(mask, turn + 1) + if qualified(mask, turn) {
            1int
        } else {
            0
        },
{
    lemma_bits_start(mask, turn - 11, 61);
}

// ========== Gates before the scoring ==========

/// What a barrier looks for among the answers.
#[derive(Debug, Clone, Copy, PartialEq, Eq, Structural)]
pub enum Wanted {
    Race,
    Clinic,
    Rest,
    Outing,
    Wisdom,
}

/// An operation is what a barrier looks for.
pub open spec fn fits(w: Wanted, op: OpView) -> bool {
    match w {
        Wanted::Race => op is Race,
        Wanted::Clinic => op is Clinic,
        Wanted::Rest => op is Rest,
        Wanted::Outing => op is NormalOuting || op is FriendOuting,
        Wanted::Wisdom => op == OpView::Train(TrainingType::Wisdom),
    }
}

/// The first answer, from a position on, that a barrier looks for.
pub open spec fn first_fit(actions: Seq<RamenAction>, w: Wanted, from: int) -> Option<int>
    decreases actions.len() - from,
{
    if from >= actions.len() {
        None
    } else if fits(w, actions[from].operation@) {
        Some(from)
    } else {
        first_fit(actions, w, from + 1)
    }
}

/// The first answer that a barrier looks for.
pub fn find_operation(actions: &Vec<RamenAction>, w: Wanted) -> (r: Option<usize>)
    ensures
        r matches Some(i) ==> first_fit(actions@, w, 0) == Some(i as int),
        r is None ==> first_fit(actions@, w, 0) is None,
{
    let mut i: usize = 0;
    while i < actions.len()
        invariant
            i <= actions@.len(),
            first_fit(actions@, w, 0) == first_fit(actions@, w, i as int),
        decreases actions@.len() - i,
    {
        let hit: bool = match (w, actions[i].operation) {
            (Wanted::Race, Operation::Race) => true,
            (Wanted::Clinic, Operation::Clinic) => true,
            (Wanted::Rest, Operation::Rest) => true,
            (Wanted::Outing, Operation::NormalOuting) => true,
            (Wanted::Outing, Operation::FriendOuting) => true,
            (Wanted::Wisdom, Operation::Train(TrainingType::Wisdom)) => true,
            _ => false,
        };
        if hit {
            return Some(i);
        }
        i = i + 1;
    }
    None
}

/// The thresholds of the barriers.
#[derive(Debug, Clone, Copy, PartialEq, Eq, Structural)]
pub struct PolicyGates {
    /// Vitality below which the turn is spent on rest.
    pub vital_rest: i32,
    /// The same on a turn on which a bowl is eaten.
    pub vital_rest_eating: i32,
    /// Vitality from which wisdom training does without that rest.
    pub wisdom_vital_floor: i32,
    /// Motivation below which the turn is spent on going out.
    pub motivation_outing: i32,
    /// Turns to spare with which lacking races are still left for later.
    pub race_gate_slack: u32,
}

impl Default for PolicyGates {
    fn default() -> (g: PolicyGates)
        ensures
            g == (PolicyGates {
                vital_rest: 45,
                vital_rest_eating: 0,
                wisdom_vital_floor: i32::MAX,
                motivation_outing: 3,
                race_gate_slack: 1,
            }),
    {
        PolicyGates {
            vital_rest: 45,
            vital_rest_eating: 0,
            wisdom_vital_floor: i32::MAX,
            motivation_outing: 3,
            race_gate_slack: 1,
        }
    }
}

/// What decided a turn.
#[derive(Debug, Clone, Copy, PartialEq, Eq, Structural)]
pub enum TrainGate {
    /// Races are lacking and hardly a turn can be spared.
    FreeRace,
    /// An ailment is cured.
    Clinic,
    /// An ailment is cured by resting in the summer camp.
    CampRest,
    /// Vitality is low.
    Rest { threshold: i32 },
    /// Motivation is low.
    Outing,
}

/// The race that the demand for freely chosen races forces: races are lacking, this turn and
/// those that follow still suffice for them with no more than the slack to spare, and a race on
/// this turn counts.
pub open spec fn race_gate(
    uma: &Uma,
    data: &UmaData,
    turn: i32,
    actions: Seq<RamenAction>,
    slack: int,
) -> Option<int> {
    match span_at(data.free_races@, turn as u32) {
        None => None,
        Some(free) => {
            let need = races_lacking(uma.win_races, free);
            let remain = slots_left(free.mask, turn as int);
            if need == 0 || remain < need || remain > need + slack || !qualified(
                free.mask,
                turn as int,
            ) {
                None
            } else {
                first_fit(actions, Wanted::Race, 0)
            }
        },
    }
}

/// The vitality below which a turn is spent on rest.
pub open spec fn rest_threshold(gates: &PolicyGates, ramen: Option<usize>) -> i32 {
    if ramen is Some {
        gates.vital_rest_eating
    } else {
        gates.vital_rest
    }
}

/// Vitality is low, and wisdom training does not make up for it.
pub open spec fn must_rest(
    vital: i32,
    gates: &PolicyGates,
    ramen: Option<usize>,
    actions: Seq<RamenAction>,
) -> bool {
    &&& vital < rest_threshold(gates, ramen)
    &&& !(vital >= gates.wisdom_vital_floor && first_fit(actions, Wanted::Wisdom, 0) is Some)
}

/// The barrier that decides a turn, if any does: lacking races come before an ailment, an ailment
/// before low vitality, and that before low motivation. A barrier whose answer is not offered lets
/// the turn pass on to the next.
pub open spec fn train_gate(
    game: &RamenGame,
    data: &UmaData,
    gates: &PolicyGates,
    actions: Seq<RamenAction>,
    ramen: Option<usize>,
) -> Option<(int, TrainGate)> {
    let uma = game.base.uma;
    let camp = camp_turn(game.base.turn as int);
    let ailing = uma.flags.ill || uma.flags.bad_trainer;
    let race = race_gate(&uma, data, game.base.turn, actions, gates.race_gate_slack as int);
    let clinic = first_fit(actions, Wanted::Clinic, 0);
    let rest = first_fit(actions, Wanted::Rest, 0);
    let outing = first_fit(actions, Wanted::Outing, 0);
    if race is Some {
        Some((race->0, TrainGate::FreeRace))
    } else if ailing && !camp && clinic is Some {
        Some((clinic->0, TrainGate::Clinic))
    } else if ailing && camp && rest is Some {
        Some((rest->0, TrainGate::CampRest))
    } else if must_rest(uma.vital, gates, ramen, actions) && rest is Some {
        Some((rest->0, TrainGate::Rest { threshold: rest_threshold(gates, ramen) }))
    } else if uma.motivation < gates.motivation_outing && outing is Some {
        Some((outing->0, TrainGate::Outing))
    } else {
        None
    }
}

/// The race that the demand for freely chosen races forces, if it forces one.
pub fn free_race_gate_index(
    game: &RamenGame,
    data: &UmaData,
    actions: &Vec<RamenAction>,
    slack: u32,
) -> (r: Option<usize>)
    ensures
        r matches Some(i) ==> race_gate(
            &game.base.uma,
            data,
            game.base.turn,
            actions@,
            slack as int,
        ) == Some(i as int),
        r is None ==> race_gate(&game.base.uma, data, game.base.turn, actions@, slack as int) is None,
{
    match game.base.uma.find_free_race(data, game.base.turn) {
        None => None,
        Some(free) => {
            let need: u32 = races_needed(&game.base.uma, free);
            if need == 0 {
                return None;
            }
            let remain: u32 = remaining_race_slots(game.base.turn, free);
            if remain < need {
                return None;
            }
            if remain as u64 > need as u64 + slack as u64 {
                return None;
            }
            if !race_turn_qualified(game.base.turn, free) {
                return None;
            }
            find_operation(actions, Wanted::Race)
        },
    }
}

/// While the barrier leaves a turn free, the demand for races can still be met afterwards: a span
/// whose lacking races fit into the turns left keeps that many turns even if no race is run now.
pub proof fn law_gate_keeps_the_demand_within_reach(
    uma: &Uma,
    data: &UmaData,
    turn: i32,
    actions: Seq<RamenAction>,
    slack: int,
)
    requires
        13 <= turn <= 71,
        slack >= 0,
        span_at(data.free_races@, turn as u32) is Some,
        races_lacking(uma.win_races, span_at(data.free_races@, turn as u32)->0) <= slots_left(
            span_at(data.free_races@, turn as u32)->0.mask,
            turn as int,
        ),
        first_fit(actions, Wanted::Race, 0) is Some,
        race_gate(uma, data, turn, actions, slack) is None,
    ensures
        races_lacking(uma.win_races, span_at(data.free_races@, turn as u32)->0) <= slots_left(
            span_at(data.free_races@, turn as u32)->0.mask,
            turn + 1,
        ),
{
    let free = span_at(data.free_races@, turn as u32)->0;
    law_slots_pass_with_the_turns(free.mask, turn as int);
    lemma_bits_bounds(free.mask, larger(2, turn + 1 - 11), 61);
}

proof fn lemma_bits_bounds(mask: u64, low: int, high: int)
    ensures
        bits_between(mask, low, high) >= 0,
    decreases high - low,
{
    if low < high {
        lemma_bits_bounds(mask, low, high - 1);
    }
}

/// Lacking races come before everything else that a barrier may ask for.
pub proof fn law_races_come_first(
    game: &RamenGame,
    data: &UmaData,
    gates: &PolicyGates,
    actions: Seq<RamenAction>,
    ramen: Option<usize>,
)
    requires
        race_gate(
            &game.base.uma,
            data,
            game.base.turn,
            actions,
            gates.race_gate_slack as int,
        ) is Some,
    ensures
        train_gate(game, data, gates, actions, ramen) matches Some((i, g)) && g
            == TrainGate::FreeRace && 0 <= i < actions.len() && actions[i].operation@ is Race,
{
    lemma_first_fit(actions, Wanted::Race, 0);
}

proof fn lemma_first_fit(actions: Seq<RamenAction>, w: Wanted, from: int)
    requires
        0 <= from,
    ensures
        first_fit(actions, w, from) matches Some(i) ==> from <= i < actions.len() && fits(
            w,
            actions[i].operation@,
        ),
    decreases actions.len() - from,
{
    if from < actions.len() && !fits(w, actions[from].operation@) {
        lemma_first_fit(actions, w, from + 1);
    }
}

/// The barrier that decides a turn, with the answer it picks, if any does.
pub fn find_train_gate(
    game: &RamenGame,
    data: &UmaData,
    gates: &PolicyGates,
    actions: &Vec<RamenAction>,
    ramen: Option<usize>,
) -> (r: Option<(usize, TrainGate)>)
    ensures
        r matches Some((i, g)) ==> i < actions@.len() && train_gate(
            game,
            data,
            gates,
            actions@,
            ramen,
        ) == Some((i as int, g)),
        r is None ==> train_gate(game, data, gates, actions@, ramen) is None,
{
    proof {
        lemma_first_fit(actions@, Wanted::Race, 0);
        lemma_first_fit(actions@, Wanted::Clinic, 0);
        lemma_first_fit(actions@, Wanted::Rest, 0);
        lemma_first_fit(actions@, Wanted::Outing, 0);
    }
    if let Some(i) = free_race_gate_index(game, data, actions, gates.race_gate_slack) {
        return Some((i, TrainGate::FreeRace));
    }
    let camp: bool = game.base.is_xiahesu();
    let uma: &Uma = &game.base.uma;
    if uma.flags.ill || uma.flags.bad_trainer {
        if !camp {
            if let Some(i) = find_operation(actions, Wanted::Clinic) {
                return Some((i, TrainGate::Clinic));
            }
        } else {
            if let Some(i) = find_operation(actions, Wanted::Rest) {
                return Some((i, TrainGate::CampRest));
            }
        }
    }
    let threshold: i32 = if ramen.is_some() {
        gates.vital_rest_eating
    } else {
        gates.vital_rest
    };
    let exempt: bool = uma.vital >= gates.wisdom_vital_floor && find_operation(
        actions,
        Wanted::Wisdom,
    ).is_some();
    if uma.vital < threshold && !exempt {
        if let Some(i) = find_operation(actions, Wanted::Rest) {
            return Some((i, TrainGate::Rest { threshold }));
        }
    }
    if uma.motivation < gates.motivation_outing {
        if let Some(i) = find_operation(actions, Wanted::Outing) {
            return Some((i, TrainGate::Outing));
        }
    }
    None
}

/// An answer is the one of a turn: the barrier's where one decides, or else the best by score.
pub open spec fn turn_choice(
    game: &RamenGame,
    data: &UmaData,
    gates: &PolicyGates,
    actions: Seq<RamenAction>,
    ramen: Option<usize>,
    scores: Seq<i64>,
    i: usize,
) -> bool {
    match train_gate(game, data, gates, actions, ramen) {
        Some((g, _)) => i == g,
        None => best(scores, i as int),
    }
}

/// Picks the answer of a turn: the one that a barrier picks, or else the one with the highest score.
/// Refused where there is no answer.
pub fn decide_train(
    game: &RamenGame,
    data: &UmaData,
    gates: &PolicyGates,
    actions: &Vec<RamenAction>,
    ramen: Option<usize>,
    scores: &Vec<i64>,
) -> (r: Result<usize, SimError>)
    requires
        scores@.len() == actions@.len(),
    ensures
        match r {
            Ok(i) => actions@.len() > 0 && i < actions@.len() && match train_gate(
                game,
                data,
                gates,
                actions@,
                ramen,
            ) {
                Some((g, _)) => i == g,
                None => best(scores@, i as int),
            },
            Err(e) => actions@.len() == 0 && e == SimError::NoCandidates,
        },
        r matches Ok(i) ==> turn_choice(game, data, gates, actions@, ramen, scores@, i),
{
    if actions.len() == 0 {
        return Err(SimError::NoCandidates);
    }
    match find_train_gate(game, data, gates, actions, ramen) {
        Some((i, _)) => Ok(i),
        None => Ok(argmax_index(scores)),
    }
}

/// Why a barrier decided a turn.
pub open spec fn gate_reason(
    game: &RamenGame,
    data: &UmaData,
    gates: &PolicyGates,
    gate: TrainGate,
) -> Seq<char> {
    match gate {
        TrainGate::FreeRace => "守门: "@ + race_reason(&game.base.uma, data, game.base.turn),
        TrainGate::Clinic => "守门: 生病治病"@,
        TrainGate::CampRest => "守门: 夏合宿休息(自动治病)"@,
        TrainGate::Rest { threshold } => "守门: 体力"@ + dec(game.base.uma.vital as int) + "<"@ + dec(
            threshold as int,
        ) + "休息"@,
        TrainGate::Outing => "守门: 心情"@ + dec(game.base.uma.motivation as int) + "<"@ + dec(
            gates.motivation_outing as int,
        ) + "外出"@,
    }
}

/// The name of a race grade.
pub open spec fn grade_name(g: u32) -> Seq<char> {
    if g == 0 {
        "?"@
    } else if g == 1 {
        "G1"@
    } else if g == 2 {
        "G2"@
    } else if g == 3 {
        "G3"@
    } else {
        "OP"@
    }
}

/// What a span demands of a race.
pub open spec fn grade_note(grade: Option<u32>) -> Seq<char> {
    match grade {
        Some(g) => "要求"@ + grade_name(g) + "及以上"@,
        None => "无等级要求"@,
    }
}

/// How the demand for freely chosen races stands, in words.
pub open spec fn race_reason(uma: &Uma, data: &UmaData, turn: i32) -> Seq<char> {
    match span_at(data.free_races@, turn as u32) {
        None => "无自选比赛要求"@,
        Some(free) => {
            let need = races_lacking(uma.win_races, free);
            let remain = slots_left(free.mask, turn as int);
            let note = grade_note(free.grade);
            if need == 0 {
                "自选比赛已达标("@ + note + "), 区间剩余回合不再干预"@
            } else if remain < need {
                "自选比赛缺"@ + dec(need) + "场("@ + note + ")但只剩"@ + dec(remain)
                    + "个有效回合, 打完也不够(摆烂), 不再强制"@
            } else if !qualified(free.mask, turn as int) {
                "自选比赛缺"@ + dec(need) + "场("@ + note + "), 本回合等级不满足, 不白打"@
            } else {
                "自选比赛缺"@ + dec(need) + "场/剩"@ + dec(remain) + "回合("@ + note
                    + "), 剩余回合不足需强制补赛"@
            }
        },
    }
}

/// What a span demands of a race.
fn grade_note_of(grade: Option<u32>) -> (s: String)
    ensures
        s@ == grade_note(grade),
{
    match grade {
        Some(g) => {
            let name: &str = match g {
                0 => "?",
                1 => "G1",
                2 => "G2",
                3 => "G3",
                _ => "OP",
            };
            let mut s: String = "要求".to_owned();
            s.append(name);
            s.append("及以上");
            s
        },
        None => "无等级要求".to_owned(),
    }
}

/// How the demand for freely chosen races stands, in words.
pub fn free_race_gate_reason(game: &RamenGame, data: &UmaData) -> (s: String)
    ensures
        s@ == race_reason(&game.base.uma, data, game.base.turn),
{
    match game.base.uma.find_free_race(data, game.base.turn) {
        None => "无自选比赛要求".to_owned(),
        Some(free) => {
            let need: u32 = races_needed(&game.base.uma, free);
            let remain: u32 = remaining_race_slots(game.base.turn, free);
            let note: String = grade_note_of(free.grade);
            if need == 0 {
                let mut s: String = "自选比赛已达标(".to_owned();
                s.append(note.as_str());
                s.append("), 区间剩余回合不再干预");
                return s;
            }
            let mut s: String = "自选比赛缺".to_owned();
            append_int(&mut s, need as i64);
            if remain < need {
                s.append("场(");
                s.append(note.as_str());
                s.append(")但只剩");
                append_int(&mut s, remain as i64);
                s.append("个有效回合, 打完也不够(摆烂), 不再强制");
            } else if !race_turn_qualified(game.base.turn, free) {
                s.append("场(");
                s.append(note.as_str());
                s.append("), 本回合等级不满足, 不白打");
            } else {
                s.append("场/剩");
                append_int(&mut s, remain as i64);
                s.append("回合(");
                s.append(note.as_str());
                s.append("), 剩余回合不足需强制补赛");
            }
            s
        },
    }
}

/// Why a barrier decided a turn.
pub fn explain_gate(game: &RamenGame, data: &UmaData, gates: &PolicyGates, gate: TrainGate) -> (s:
    String)
    ensures
        s@ == gate_reason(game, data, gates, gate),
{
    match gate {
        TrainGate::FreeRace => {
            let why: String = free_race_gate_reason(game, data);
            let mut s: String = "守门: ".to_owned();
            s.append(why.as_str());
            s
        },
        TrainGate::Clinic => "守门: 生病治病".to_owned(),
        TrainGate::CampRest => "守门: 夏合宿休息(自动治病)".to_owned(),
        TrainGate::Rest { threshold } => {
            let mut s: String = "守门: 体力".to_owned();
            append_int(&mut s, game.base.uma.vital as i64);
            s.append("<");
            append_int(&mut s, threshold as i64);
            s.append("休息");
            s
        },
        TrainGate::Outing => {
            let mut s: String = "守门: 心情".to_owned();
            append_int(&mut s, game.base.uma.motivation as i64);
            s.append("<");
            append_int(&mut s, gates.motivation_outing as i64);
            s.append("外出");
            s
        },
    }
}

// ========== What the scores are made of ==========

/// How much a demand for races presses on this turn.
#[derive(Debug, Clone, Copy, PartialEq, Eq, Structural)]
pub enum RacePressure {
    /// Nothing is lacking, or a race on this turn would not count.
    Absent,
    /// The turns left do not suffice any more.
    GivenUp { need: u32, remain: u32 },
    /// So many races are lacking, and so many turns are left.
    Pressing { need: u32, remain: u32 },
}

/// How much the demand for races presses on a turn.
pub open spec fn pressure(uma: &Uma, data: &UmaData, turn: i32) -> RacePressure {
    match span_at(data.free_races@, turn as u32) {
        None => RacePressure::Absent,
        Some(free) => {
            let need = races_lacking(uma.win_races, free);
            let remain = slots_left(free.mask, turn as int);
            if need == 0 || !qualified(free.mask, turn as int) {
                RacePressure::Absent
            } else if remain < need {
                RacePressure::GivenUp { need: need as u32, remain: remain as u32 }
            } else {
                RacePressure::Pressing { need: need as u32, remain: remain as u32 }
            }
        },
    }
}

/// How much the demand for races presses on this turn.
pub fn race_pressure(game: &RamenGame, data: &UmaData) -> (p: RacePressure)
    ensures
        p == pressure(&game.base.uma, data, game.base.turn),
{
    match game.base.uma.find_free_race(data, game.base.turn) {
        None => RacePressure::Absent,
        Some(free) => {
            let need: u32 = races_needed(&game.base.uma, free);
            if need == 0 || !race_turn_qualified(game.base.turn, free) {
                return RacePressure::Absent;
            }
            let remain: u32 = remaining_race_slots(game.base.turn, free);
            if remain < need {
                RacePressure::GivenUp { need, remain }
            } else {
                RacePressure::Pressing { need, remain }
            }
        },
    }
}

/// The grade of the race of a turn: that of the table, never below zero, and four on the final
/// turns; zero where there is no race.
pub open spec fn race_grade(cons: &GameConstants, turn: int) -> int {
    if turn >= 72 {
        4
    } else if 0 <= turn < cons.race_grades@.len() {
        larger(cons.race_grades@[turn] as int, 0)
    } else {
        0
    }
}

/// The grade of the race of this turn.
pub fn game_race_grade(game: &RamenGame, cons: &GameConstants) -> (g: i32)
    ensures
        g == race_grade(cons, game.base.turn as int),
{
    let turn: i32 = game.base.turn;
    if turn >= 72 {
        return 4;
    }
    if turn < 0 || turn as usize >= cons.race_grades.len() {
        return 0;
    }
    cons.race_grades[turn as usize].max(0)
}

/// The smaller of two numbers.
pub open spec fn smaller(a: int, b: int) -> int {
    if a < b {
        a
    } else {
        b
    }
}

/// What a rise of a status value adds to the final score: the table is read at the value, which
/// is taken as zero at least, and at the raised value, both no higher than the cap.
pub open spec fn gain_points(cons: &GameConstants, status: int, limit: int, inc: int) -> int {
    let cur = larger(smaller(status, limit), 0);
    let next = smaller(smaller(cur + larger(inc, 0), i32::MAX as int), limit);
    cons.final_score(next) - cons.final_score(cur)
}

/// What a rise of a status value adds to the final score.
pub fn status_gain_points(game: &RamenGame, cons: &GameConstants, i: usize, inc: i32) -> (points: i64)
    requires
        i < 5,
        cons.five_status_final_score@.len() > 0,
    ensures
        points == gain_points(
            cons,
            game.base.uma.five_status@[i as int] as int,
            game.base.uma.five_status_limit@[i as int] as int,
            inc as int,
        ),
{
    let limit: i32 = game.base.uma.five_status_limit[i];
    let cur: i32 = game.base.uma.five_status[i].min(limit).max(0);
    let raised: i64 = (cur as i64 + inc.max(0) as i64).min(i32::MAX as i64);
    let next: i32 = (raised as i32).min(limit);
    cons.status_final_score(next) as i64 - cons.status_final_score(cur) as i64
}

/// The cards that train where a region helps: how many in all, how many trainings have just one,
/// and how many none.
#[derive(Debug, Clone, Copy, PartialEq, Eq, Structural)]
pub struct RegionTally {
    pub cards: i64,
    pub single: u32,
    pub empty: u32,
}

/// The cards that train where a region helps.
pub open spec fn tally(trains: Seq<i32>, counts: Seq<i32>) -> (int, int, int)
    decreases trains.len(),
{
    if trains.len() == 0 {
        (0, 0, 0)
    } else {
        let (cards, single, empty) = tally(trains.drop_last(), counts);
        let t = trains.last();
        if !(0 <= t < 5) {
            (cards, single, empty)
        } else if counts[t as int] > 1 {
            (cards + counts[t as int], single, empty)
        } else if counts[t as int] == 1 {
            (cards + 1, single + 1, empty)
        } else {
            (cards, single, empty + 1)
        }
    }
}

/// The cards that train where a region helps. Refused for an unknown region.
pub fn tally_region(game: &RamenGame, data: &RamenScenarioData, region_id: usize) -> (r: Result<
    RegionTally,
    SimError,
>)
    requires
        region_id < data.ramen_region_effect@.len()
            ==> data.ramen_region_effect@[region_id as int].at_trains@.len() <= i32::MAX,
    ensures
        match r {
            Ok(t) => region_id < data.ramen_region_effect@.len() && tally(
                data.ramen_region_effect@[region_id as int].at_trains@,
                game.card_type_count@,
            ) == (t.cards as int, t.single as int, t.empty as int),
            Err(e) => region_id >= data.ramen_region_effect@.len() && e
                == (SimError::RegionOutOfRange { region_id }),
        },
{
    if region_id >= data.ramen_region_effect.len() {
        return Err(SimError::RegionOutOfRange { region_id });
    }
    let region: &RegionEffect = &data.ramen_region_effect[region_id];
    let ghost trains = region.at_trains@;
    let mut cards: i64 = 0;
    let mut single: u32 = 0;
    let mut empty: u32 = 0;
    let mut i: usize = 0;
    assert(trains.take(0) =~= Seq::<i32>::empty());
    while i < region.at_trains.len()
        invariant
            trains == region.at_trains@,
            i <= trains.len() <= i32::MAX,
            single <= i,
            empty <= i,
            0 <= cards <= i * i32::MAX,
            tally(trains.take(i as int), game.card_type_count@) == (
                cards as int,
                single as int,
                empty as int,
            ),
        decreases trains.len() - i,
    {
        let t: i32 = region.at_trains[i];
        let ghost next = trains.take(i as int + 1);
        assert(next.drop_last() =~= trains.take(i as int));
        assert(next.last() == t);
        assert(i * i32::MAX + i32::MAX == (i + 1) * i32::MAX) by (nonlinear_arith);
        assert(i * i32::MAX <= i32::MAX * i32::MAX) by (nonlinear_arith)
            requires
                i <= i32::MAX,
        ;
        if 0 <= t && t < 5 {
            let count: i32 = game.card_type_count[t as usize];
            if count > 0 {
                cards = cards + count as i64;
                if count == 1 {
                    single = single + 1;
                }
            } else {
                empty = empty + 1;
            }
        }
        i = i + 1;
    }
    assert(trains.take(trains.len() as int) =~= trains);
    Ok(RegionTally { cards, single, empty })
}

// ========== The other stages ==========

/// The hidden flavours that an answer uses.
pub open spec fn flavours_used(a: RamenAction) -> int {
    match a@.special_targets {
        Some(t) => sum3(t),
        None => 0,
    }
}

/// The hidden flavours that an answer uses.
pub fn hidden_used(a: &RamenAction) -> (n: i64)
    ensures
        n == flavours_used(*a),
{
    match a.special_targets {
        Some(t) => t[0] as i64 + t[1] as i64 + t[2] as i64,
        None => 0,
    }
}

/// An answer uses the fewest hidden flavours, and none before it uses as few.
pub open spec fn thriftiest(actions: Seq<RamenAction>, i: int) -> bool {
    &&& 0 <= i < actions.len()
    &&& forall|j: int|
        0 <= j < actions.len() ==> flavours_used(actions[i]) <= flavours_used(#[trigger] actions[j])
    &&& forall|j: int|
        0 <= j < i ==> flavours_used(actions[i]) < flavours_used(#[trigger] actions[j])
}

/// Picks the hidden flavours for a bowl: as few as possible. Refused where there is no answer.
pub fn decide_special(actions: &Vec<RamenAction>) -> (r: Result<usize, SimError>)
    ensures
        match r {
            Ok(i) => actions@.len() > 0 && thriftiest(actions@, i as int),
            Err(e) => actions@.len() == 0 && e == SimError::NoCandidates,
        },
{
    if actions.len() == 0 {
        return Err(SimError::NoCandidates);
    }
    let mut scores: Vec<i64> = Vec::new();
    let mut i: usize = 0;
    while i < actions.len()
        invariant
            i <= actions@.len(),
            scores@.len() == i,
            forall|j: int| 0 <= j < i ==> #[trigger] scores@[j] == -flavours_used(actions@[j]),
        decreases actions@.len() - i,
    {
        let used: i64 = hidden_used(&actions[i]);
        assert(-3 * 2147483648 <= used <= 3 * 2147483648);
        scores.push(-used);
        i = i + 1;
    }
    let top: usize = argmax_index(&scores);
    assert forall|j: int| 0 <= j < actions@.len() implies flavours_used(actions@[top as int])
        <= flavours_used(#[trigger] actions@[j]) by {
        assert(scores@[j] <= scores@[top as int]);
    }
    assert forall|j: int| 0 <= j < top implies flavours_used(actions@[top as int]) < flavours_used(
        #[trigger] actions@[j],
    ) by {
        assert(scores@[j] < scores@[top as int]);
    }
    Ok(top)
}

/// The regions that are picked where the order alone decides: the first three of the year.
/// Refused for a year beyond the third.
pub fn fixed_region_selection(year_idx: usize) -> (r: Result<[usize; 3], SimError>)
    ensures
        match r {
            Ok(s) => year_idx < 3 && forall|i: int|
                0 <= i < 3 ==> #[trigger] s@[i] == region_first(year_idx as int) + i,
            Err(e) => year_idx >= 3 && e == (SimError::YearOutOfRange { year_idx }),
        },
{
    match get_region_range(year_idx) {
        Ok(range) => Ok([range[0], range[1], range[2]]),
        Err(e) => Err(e),
    }
}

/// The position of the option that is always picked for the super ramen.
pub const FIXED_SUPER_RAMEN_INDEX: usize = 1;

/// The trainings of the option that is always picked for the super ramen. Refused where the table
/// has no such option.
pub fn fixed_super_ramen_selection(data: &RamenScenarioData) -> (r: Result<Vec<i32>, SimError>)
    ensures
        match r {
            Ok(trains) => data.finals_effect.training_limit_options@.len() > FIXED_SUPER_RAMEN_INDEX
                && trains@
                == data.finals_effect.training_limit_options@[FIXED_SUPER_RAMEN_INDEX as int]@,
            Err(e) => data.finals_effect.training_limit_options@.len() <= FIXED_SUPER_RAMEN_INDEX
                && e == (SimError::ChoiceOutOfRange {
                selection: FIXED_SUPER_RAMEN_INDEX,
                len: data.finals_effect.training_limit_options@.len() as usize,
            }),
        },
{
    match get_super_ramen_clone_train_options(data) {
        Ok(options) => {
            if options.len() <= FIXED_SUPER_RAMEN_INDEX {
                return Err(
                    SimError::ChoiceOutOfRange {
                        selection: FIXED_SUPER_RAMEN_INDEX,
                        len: options.len(),
                    },
                );
            }
            Ok(options[FIXED_SUPER_RAMEN_INDEX].clone())
        },
        Err(e) => Err(e),
    }
}

/// The first answer, from a position on, that picks the fixed option.
pub open spec fn first_fixed(actions: Seq<RamenAction>, from: int) -> Option<int>
    decreases actions.len() - from,
{
    if from >= actions.len() {
        None
    } else if actions[from].operation@ == OpView::SuperRamenSelect(FIXED_SUPER_RAMEN_INDEX) {
        Some(from)
    } else {
        first_fixed(actions, from + 1)
    }
}

/// Picks the super ramen: the fixed option, wherever it stands among the answers. Refused where
/// there is no answer, and where none offers that option.
pub fn decide_super_ramen(actions: &Vec<RamenAction>) -> (r: Result<usize, SimError>)
    ensures
        match r {
            Ok(i) => i < actions@.len() && first_fixed(actions@, 0) == Some(i as int),
            Err(e) => first_fixed(actions@, 0) is None && e == if actions@.len() == 0 {
                SimError::NoCandidates
            } else {
                SimError::NoSuchOption
            },
        },
{
    if actions.len() == 0 {
        return Err(SimError::NoCandidates);
    }
    let mut i: usize = 0;
    while i < actions.len()
        invariant
            i <= actions@.len(),
            first_fixed(actions@, 0) == first_fixed(actions@, i as int),
        decreases actions@.len() - i,
    {
        if let Operation::SuperRamenSelect(option) = actions[i].operation {
            if option == FIXED_SUPER_RAMEN_INDEX {
                return Ok(i);
            }
        }
        i = i + 1;
    }
    Err(SimError::NoSuchOption)
}

/// The choice among scores is the first of the largest.
pub proof fn law_first_of_the_largest(scores: Seq<i64>, i: int, j: int)
    requires
        best(scores, i),
        0 <= j < scores.len(),
    ensures
        0 <= i < scores.len(),
        scores[j] <= scores[i],
        scores[j] == scores[i] ==> i <= j,
{
}

/// The first action of a kind is found: it is of the kind, none before it is, and nothing is found
/// exactly where no action is of the kind.
pub proof fn law_first_action_of_a_kind(actions: Seq<RamenAction>, w: Wanted, j: int)
    requires
        0 <= j < actions.len(),
    ensures
        ({
            let wanted = match w {
                Wanted::Race => actions[j].operation@ is Race,
                Wanted::Clinic => actions[j].operation@ is Clinic,
                Wanted::Rest => actions[j].operation@ is Rest,
                Wanted::Outing => actions[j].operation@ is NormalOuting
                    || actions[j].operation@ is FriendOuting,
                Wanted::Wisdom => actions[j].operation@ == OpView::Train(TrainingType::Wisdom),
            };
            &&& first_fit(actions, w, 0) is None ==> !wanted
            &&& first_fit(actions, w, 0) == Some(j) ==> wanted
            &&& first_fit(actions, w, 0) matches Some(i) ==> 0 <= i < actions.len() && (j < i
                ==> !wanted)
        }),
{
    lemma_first_fit_from(actions, w, 0);
}

proof fn lemma_first_fit_from(actions: Seq<RamenAction>, w: Wanted, from: int)
    requires
        0 <= from,
    ensures
        match first_fit(actions, w, from) {
            Some(i) => {
                &&& from <= i < actions.len()
                &&& fits(w, actions[i].operation@)
                &&& forall|j: int| from <= j < i ==> !fits(w, (#[trigger] actions[j]).operation@)
            },
            None => forall|j: int|
                from <= j < actions.len() ==> !fits(w, (#[trigger] actions[j]).operation@),
        },
    decreases actions.len() - from,
{
    if from < actions.len() && !fits(w, actions[from].operation@) {
        lemma_first_fit_from(actions, w, from + 1);
    }
}

/// A race is forced in a span that still lacks races, on a turn that counts for it, while the turns
/// left are enough and no more than the slack above what is lacking.
pub proof fn law_when_a_race_is_forced(
    uma: &Uma,
    data: &UmaData,
    turn: i32,
    actions: Seq<RamenAction>,
    slack: int,
    free: FreeRaceData,
    j: int,
)
    requires
        span_at(data.free_races@, turn as u32) == Some(free),
        0 <= j < actions.len(),
        actions[j].operation@ is Race,
    ensures
        race_gate(uma, data, turn, actions, slack) is Some <==> {
            let lacking = free.count - races_between(uma.win_races, free.mask, 64);
            &&& lacking > 0
            &&& lacking <= slots_left(free.mask, turn as int) <= lacking + slack
            &&& 11 <= turn < 75
            &&& (free.mask >> ((turn - 11) as u64)) & 1 == 1
        },
        race_gate(uma, data, turn, actions, slack) matches Some(i) ==> 0 <= i <= j
            && actions[i].operation@ is Race,
{
    lemma_first_fit_from(actions, Wanted::Race, 0);
}

/// Outside the spans no race is forced, nor where no race is on offer.
pub proof fn law_no_race_is_forced_without_a_span(
    uma: &Uma,
    data: &UmaData,
    turn: i32,
    actions: Seq<RamenAction>,
    slack: int,
)
    requires
        span_at(data.free_races@, turn as u32) is None || forall|j: int|
            0 <= j < actions.len() ==> !((#[trigger] actions[j]).operation@ is Race),
    ensures
        race_gate(uma, data, turn, actions, slack) is None,
{
    lemma_first_fit_from(actions, Wanted::Race, 0);
}

/// After turn seventy-one no race of a span can be run, and before turn thirteen all of them can.
pub proof fn law_slots_end_with_the_third_year(mask: u64, turn: int)
    ensures
        turn >= 72 ==> slots_left(mask, turn) == 0,
        turn <= 13 ==> slots_left(mask, turn) == slots_left(mask, 13),
{
}

/// What comes before the scores, once no race is forced: the doctor for whoever is ill or trains
/// badly, rest instead in the summer camp, rest below the vitality that is asked for, an outing below
/// the motivation that is asked for; otherwise the scores decide.
pub proof fn law_what_comes_before_the_scores(
    game: &RamenGame,
    data: &UmaData,
    gates: &PolicyGates,
    actions: Seq<RamenAction>,
    ramen: Option<usize>,
)
    requires
        race_gate(
            &game.base.uma,
            data,
            game.base.turn,
            actions,
            gates.race_gate_slack as int,
        ) is None,
    ensures
        ({
            let u = game.base.uma;
            let camp = 36 <= game.base.turn <= 39 || 60 <= game.base.turn <= 63;
            let ailing = u.flags.ill || u.flags.bad_trainer;
            let clinic = exists|j: int|
                0 <= j < actions.len() && (#[trigger] actions[j]).operation@ is Clinic;
            let rest = exists|j: int|
                0 <= j < actions.len() && (#[trigger] actions[j]).operation@ is Rest;
            let outing = exists|j: int|
                0 <= j < actions.len() && ((#[trigger] actions[j]).operation@ is NormalOuting
                    || actions[j].operation@ is FriendOuting);
            let wisdom = exists|j: int|
                0 <= j < actions.len() && (#[trigger] actions[j]).operation@ == OpView::Train(
                    TrainingType::Wisdom,
                );
            let floor = if ramen is Some {
                gates.vital_rest_eating
            } else {
                gates.vital_rest
            };
            let tired = u.vital < floor && !(u.vital >= gates.wisdom_vital_floor && wisdom);
            let gate = train_gate(game, data, gates, actions, ramen);
            if ailing && !camp && clinic {
                gate matches Some((i, g)) && g == TrainGate::Clinic && 0 <= i < actions.len()
                    && actions[i].operation@ is Clinic
            } else if ailing && camp && rest {
                gate matches Some((i, g)) && g == TrainGate::CampRest && 0 <= i < actions.len()
                    && actions[i].operation@ is Rest
            } else if tired && rest {
                gate matches Some((i, g)) && g == (TrainGate::Rest { threshold: floor }) && 0 <= i
                    < actions.len() && actions[i].operation@ is Rest
            } else if u.motivation < gates.motivation_outing && outing {
                gate matches Some((i, g)) && g == TrainGate::Outing && 0 <= i < actions.len() && (
                actions[i].operation@ is NormalOuting || actions[i].operation@ is FriendOuting)
            } else {
                gate is None
            }
        }),
{
    lemma_first_fit_from(actions, Wanted::Clinic, 0);
    lemma_first_fit_from(actions, Wanted::Rest, 0);
    lemma_first_fit_from(actions, Wanted::Outing, 0);
    lemma_first_fit_from(actions, Wanted::Wisdom, 0);
    if let Some(i) = first_fit(actions, Wanted::Clinic, 0) {
        assert(actions[i].operation@ is Clinic);
    }
    if let Some(i) = first_fit(actions, Wanted::Rest, 0) {
        assert(actions[i].operation@ is Rest);
    }
    if let Some(i) = first_fit(actions, Wanted::Outing, 0) {
        assert(actions[i].operation@ is NormalOuting || actions[i].operation@ is FriendOuting);
    }
    if let Some(i) = first_fit(actions, Wanted::Wisdom, 0) {
        assert(actions[i].operation@ == OpView::Train(TrainingType::Wisdom));
    }
}

/// A span presses while its lacking races fit into the turns left, and is given up once they do not;
/// where nothing is lacking or the turn does not count for it, there is no pressure.
pub proof fn law_race_pressure(uma: &Uma, data: &UmaData, turn: i32, free: FreeRaceData)
    requires
        span_at(data.free_races@, turn as u32) == Some(free),
        0 <= races_between(uma.win_races, free.mask, 64),
    ensures
        ({
            let lacking = free.count - races_between(uma.win_races, free.mask, 64);
            let left = slots_left(free.mask, turn as int);
            let counts = 11 <= turn < 75 && (free.mask >> ((turn - 11) as u64)) & 1 == 1;
            &&& lacking <= 0 || !counts ==> pressure(uma, data, turn) == RacePressure::Absent
            &&& lacking > 0 && counts && left >= lacking ==> (pressure(uma, data, turn)
                matches RacePressure::Pressing { need, remain } && need == lacking && remain
                == left as u32)
            &&& lacking > 0 && counts && left < lacking ==> (pressure(uma, data, turn)
                matches RacePressure::GivenUp { need, remain } && need == lacking)
        }),
{
}

/// The grade of the race of a turn: that of the table, none where it has no entry or a negative one,
/// and the lowest for all races from turn seventy-two on.
pub proof fn law_race_grades(cons: &GameConstants, turn: int)
    ensures
        turn >= 72 ==> race_grade(cons, turn) == 4,
        0 <= turn < 72 && turn < cons.race_grades@.len() && cons.race_grades@[turn] >= 0
            ==> race_grade(cons, turn) == cons.race_grades@[turn],
        turn < 72 && (turn < 0 || turn >= cons.race_grades@.len() || cons.race_grades@[turn] < 0)
            ==> race_grade(cons, turn) == 0,
{
}

/// What a rise of a status value is worth: the difference of the table's entries, up to the cap;
/// nothing at the cap, and nothing for no rise.
pub proof fn law_rise_is_worth_the_difference(
    cons: &GameConstants,
    status: int,
    limit: int,
    inc: int,
)
    requires
        0 <= status <= limit,
        limit < cons.five_status_final_score@.len(),
        limit <= i32::MAX,
    ensures
        inc <= 0 ==> gain_points(cons, status, limit, inc) == 0,
        status == limit ==> gain_points(cons, status, limit, inc) == 0,
        0 <= inc && status + inc <= limit ==> gain_points(cons, status, limit, inc)
            == cons.five_status_final_score@[status + inc] - cons.five_status_final_score@[status],
        0 <= inc && status + inc >= limit ==> gain_points(cons, status, limit, inc)
            == cons.five_status_final_score@[limit] - cons.five_status_final_score@[status],
{
}

/// The tally of a region goes over the trainings it covers: cards of the kind add up, a kind with one
/// card is counted as single, one without cards as empty.
pub proof fn law_tally_goes_over_the_trainings(trains: Seq<i32>, counts: Seq<i32>, t: i32)
    requires
        0 <= t < 5,
    ensures
        tally(Seq::empty(), counts) == (0int, 0int, 0int),
        tally(trains.push(t), counts).0 == tally(trains, counts).0 + (if counts[t as int] > 0 {
            counts[t as int] as int
        } else {
            0
        }),
        tally(trains.push(t), counts).1 == tally(trains, counts).1 + (if counts[t as int] == 1 {
            1int
        } else {
            0
        }),
        tally(trains.push(t), counts).2 == tally(trains, counts).2 + (if counts[t as int] <= 0 {
            1int
        } else {
            0
        }),
{
    assert(trains.push(t).drop_last() =~= trains);
}

/// Hidden flavours are spared: the choice uses as few as any other, and is the first of those.
pub proof fn law_flavours_are_spared(actions: Seq<RamenAction>, i: int, j: int, t: [i32; 3], s: [i32; 3])
    requires
        thriftiest(actions, i),
        0 <= j < actions.len(),
        actions[i].special_targets == Some(t),
        actions[j].special_targets == Some(s),
    ensures
        t@[0] + t@[1] + t@[2] <= s@[0] + s@[1] + s@[2],
        t@[0] + t@[1] + t@[2] == s@[0] + s@[1] + s@[2] ==> i <= j,
{
    assert(flavours_used(actions[i]) == t@[0] + t@[1] + t@[2]);
    assert(flavours_used(actions[j]) == s@[0] + s@[1] + s@[2]);
}

/// The fixed option of the super ramen is the second: its answer is found where it is listed.
pub proof fn law_second_option_is_fixed(actions: Seq<RamenAction>, from: int)
    requires
        0 <= from,
    ensures
        first_fixed(actions, from) matches Some(i) ==> from <= i < actions.len()
            && actions[i].operation@ == OpView::SuperRamenSelect(1),
        first_fixed(actions, from) is None ==> forall|j: int|
            from <= j < actions.len() ==> (#[trigger] actions[j]).operation@
                != OpView::SuperRamenSelect(1),
    decreases actions.len() - from,
{
    if from < actions.len() {
        law_second_option_is_fixed(actions, from + 1);
    }
}

/// Without scores the choice is the first place.
pub proof fn law_no_scores_first_place(i: int)
    requires
        best(Seq::<i64>::empty(), i),
    ensures
        i == 0,
{
}

/// An answer that names no hidden flavours uses none.
pub proof fn law_no_flavours_named_none_used(a: RamenAction)
    ensures
        a.special_targets is None ==> flavours_used(a) == 0,
        a.special_targets matches Some(t) ==> flavours_used(a) == t@[0] + t@[1] + t@[2],
{
}

/// Where no barrier decides, no answer has a higher score than the one picked, and none before it has
/// the same; where one decides, the scores play no part.
pub proof fn law_turn_goes_to_barrier_or_best(
    game: &RamenGame,
    data: &UmaData,
    gates: &PolicyGates,
    actions: Seq<RamenAction>,
    ramen: Option<usize>,
    scores: Seq<i64>,
    others: Seq<i64>,
    i: usize,
    j: int,
)
    requires
        turn_choice(game, data, gates, actions, ramen, scores, i),
        scores.len() == actions.len(),
        0 <= j < actions.len(),
    ensures
        train_gate(game, data, gates, actions, ramen) is None ==> i < actions.len() && scores[j]
            <= scores[i as int] && (j < i ==> scores[j] < scores[i as int]),
        train_gate(game, data, gates, actions, ramen) is Some ==> turn_choice(
            game,
            data,
            gates,
            actions,
            ramen,
            others,
            i,
        ),
{
}

} // verus!
