use vstd::prelude::*;
use super::distribution::{is_kind, known, shines};
use super::effects::{
    calc_ramen_training_effect_with_ramen,
    effect_parts,
    find_pt_effect_tier,
    format_ramen_effect_parts,
    pt_tier,
    scenario_effect,
    EffectSum,
    RamenTrainingEffect,
};
use super::rules::{base_points, calc_gauge_base_distribution, calc_train_feeling_bonus, recipe_sum};
use super::{bowl_turn, super_turn, FeelingType, RamenGame, MAX_TURN};
use crate::error::SimError;
use crate::game::base::person::{person_name, person_text, BasePerson, PersonType};
use crate::gamedata::data::{name_of, GameData};
use crate::gamedata::event::{value_text, ActionValue};
use crate::gamedata::ramen::{PtEffect, RamenScenarioData, RegionEffect};
use crate::gamedata::support_card::card_short_name;
use crate::paint::{colours_on, paint, painted, Paint};
use crate::table::{cell_texts, draw_table, table_text};
use crate::text::{append_int, dec, decimal, find_from, join, joined, part, push_part, texts};

verus! {

/// Width of the table of the trainings, in characters.
pub const TABLE_WIDTH: u16 = 80;

/// Share of the width that every training takes, in percent.
pub const TRAIN_SHARE: u16 = 20;

// ========== The state of the scenario ==========

/// The first training that a region covers.
pub open spec fn first_train(region: RegionEffect) -> usize {
    if region.at_trains@.len() == 0 {
        0
    } else {
        region.at_trains@[0] as usize
    }
}

/// What a line shows of a bowl that has been eaten.
pub open spec fn bowl_parts(e: EffectSum) -> Seq<Seq<char>> {
    part("训+"@, e.xunlian) + part("失败率-"@, e.fail_rate_drop) + part("羁绊+"@, e.friendship) + part(
        "上限+"@,
        e.status_limit,
    ) + part("PT+"@, e.pt_bonus)
}

/// What a line shows of the super ramen.
pub open spec fn super_parts(e: EffectSum) -> Seq<Seq<char>> {
    part("训+"@, e.xunlian) + part("友情+"@, e.youqing) + part("得意+"@, e.deyilv) + part(
        "失败率-"@,
        e.fail_rate_drop,
    ) + part("羁绊+"@, e.friendship) + part("上限+"@, e.status_limit) + part("PT+"@, e.pt_bonus)
        + part("hint+"@, e.hint) + part("分身+"@, e.clone_count)
}

/// What a line shows of a tier of the scenario points.
pub open spec fn tier_parts(e: PtEffect) -> Seq<Seq<char>> {
    part("训+"@, e.xunlian as int) + part("得意+"@, e.deyilv as int) + part("hint+"@, e.hint as int)
}

/// A name, followed in brackets by what there is to say.
pub open spec fn with_parts(name: Seq<char>, open: Seq<char>, parts: Seq<Seq<char>>, close: Seq<char>) -> Seq<
    char,
> {
    if parts.len() == 0 {
        name
    } else {
        name + open + joined(parts, ","@) + close
    }
}

/// The bowl that was eaten this turn, in words.
pub open spec fn bowl_word(game: &RamenGame, data: &RamenScenarioData) -> Seq<char> {
    match game.ramen.current_ramen {
        Some(r) if r < data.ramen_region_effect@.len() => {
            let region = data.ramen_region_effect@[r as int];
            let e = scenario_effect(game, data, first_train(region), false, Some(r));
            with_parts(region.name@, "("@, bowl_parts(e), ")"@)
        },
        _ => "无"@,
    }
}

/// The name of a region; nothing where there is no such region.
pub open spec fn region_word(data: &RamenScenarioData, r: usize) -> Seq<Seq<char>> {
    if r < data.ramen_region_effect@.len() {
        seq![data.ramen_region_effect@[r as int].name@]
    } else {
        Seq::empty()
    }
}

/// The names of the regions of the year.
pub open spec fn region_words(data: &RamenScenarioData, regions: Seq<usize>) -> Seq<Seq<char>> {
    region_word(data, regions[0]) + region_word(data, regions[1]) + region_word(data, regions[2])
}

/// Three numbers as a list.
pub open spec fn list_text(n: Seq<int>) -> Seq<char> {
    "["@ + dec(n[0]) + ", "@ + dec(n[1]) + ", "@ + dec(n[2]) + "]"@
}

/// Stock and gauge of the three kinds.
pub open spec fn feeling_text(stock: Seq<i32>, slot: Seq<i32>) -> Seq<char> {
    "A"@ + dec(stock[0] as int) + "/"@ + dec(slot[0] as int) + " B"@ + dec(stock[1] as int) + "/"@
        + dec(slot[1] as int) + " C"@ + dec(stock[2] as int) + "/"@ + dec(slot[2] as int)
}

/// The tier of the scenario points, in words.
pub open spec fn tier_word(data: &RamenScenarioData, scenario_pt: int) -> Seq<char> {
    let parts = tier_parts(data.ramen_pt_effect@[pt_tier(data.ramen_pt_effect@, scenario_pt)]);
    if parts.len() == 0 {
        "无加成"@
    } else {
        joined(parts, ","@)
    }
}

/// The line of an ordinary turn, for the two cells that are coloured.
pub open spec fn kitchen_line(
    game: &RamenGame,
    data: &RamenScenarioData,
    feeling: Seq<char>,
    special: Seq<char>,
) -> Seq<char> {
    "拉面: "@ + bowl_word(game, data) + " | 地区: "@ + joined(
        region_words(data, game.ramen.selected_regions@),
        ","@,
    ) + " 槽"@ + list_text(base_points(recipe_sum(data, game.ramen.selected_regions@)))
        + " | 诀窍 "@ + feeling + " | 隐藏诀窍 "@ + special + " | PT"@ + dec(
        game.ramen.scenario_pt as int,
    ) + " ["@ + tier_word(data, game.ramen.scenario_pt as int) + "]"@
}

/// The line of a super ramen turn.
pub open spec fn super_line(game: &RamenGame, data: &RamenScenarioData) -> Seq<char> {
    with_parts(
        "超级拉面回合"@,
        " ["@,
        super_parts(scenario_effect(game, data, 0, false, None)),
        "]"@,
    )
}

/// The line that tells the state of the scenario: nothing before it opens, the super ramen on the
/// final turns, and the kitchen in between, with stock and hidden flavours coloured.
pub open spec fn info_shown(game: &RamenGame, data: &RamenScenarioData, out: Seq<char>) -> bool {
    if game.base.turn < 2 {
        out == Seq::<char>::empty()
    } else if super_turn(game.base.turn as int) {
        out == super_line(game, data)
    } else {
        exists|feeling: Seq<char>, special: Seq<char>|
            #[trigger] painted(
                feeling_text(game.ramen.feeling_stock@, game.ramen.feeling_slot@),
                Paint::Cyan,
                feeling,
            ) && #[trigger] painted(dec(game.ramen.special_feeling as int), Paint::Cyan, special)
                && out == kitchen_line(game, data, feeling, special)
    }
}

/// The first training that a region covers.
fn first_train_of(region: &RegionEffect) -> (train: usize)
    ensures
        train == first_train(*region),
{
    if region.at_trains.len() == 0 {
        0
    } else {
        region.at_trains[0] as usize
    }
}

/// A name, followed in brackets by what there is to say.
fn name_with_parts(name: &str, open: &str, parts: &Vec<String>, close: &str) -> (s: String)
    ensures
        s@ == with_parts(name@, open@, texts(parts@), close@),
{
    let mut s: String = name.to_owned();
    if parts.len() > 0 {
        s.append(open);
        let list: String = join(parts, ",");
        s.append(list.as_str());
        s.append(close);
    }
    s
}

/// What a line shows of a bowl that has been eaten.
fn list_bowl_parts(e: &RamenTrainingEffect) -> (parts: Vec<String>)
    ensures
        texts(parts@) == bowl_parts(e@),
{
    let mut parts: Vec<String> = Vec::new();
    assert(texts(parts@) =~= Seq::<Seq<char>>::empty());
    push_part(&mut parts, "训+", e.xunlian);
    assert(texts(parts@) =~= part("训+"@, e.xunlian as int));
    push_part(&mut parts, "失败率-", e.fail_rate_drop);
    push_part(&mut parts, "羁绊+", e.friendship);
    push_part(&mut parts, "上限+", e.status_limit);
    push_part(&mut parts, "PT+", e.pt_bonus);
    parts
}

/// What a line shows of the super ramen.
fn list_super_parts(e: &RamenTrainingEffect) -> (parts: Vec<String>)
    ensures
        texts(parts@) == super_parts(e@),
{
    let mut parts: Vec<String> = Vec::new();
    assert(texts(parts@) =~= Seq::<Seq<char>>::empty());
    push_part(&mut parts, "训+", e.xunlian);
    assert(texts(parts@) =~= part("训+"@, e.xunlian as int));
    push_part(&mut parts, "友情+", e.youqing);
    push_part(&mut parts, "得意+", e.deyilv);
    push_part(&mut parts, "失败率-", e.fail_rate_drop);
    push_part(&mut parts, "羁绊+", e.friendship);
    push_part(&mut parts, "上限+", e.status_limit);
    push_part(&mut parts, "PT+", e.pt_bonus);
    push_part(&mut parts, "hint+", e.hint);
    push_part(&mut parts, "分身+", e.clone_count);
    parts
}

/// The tier of the scenario points, in words.
fn tier_text(data: &RamenScenarioData, scenario_pt: i32) -> (s: String)
    requires
        data.ramen_pt_effect@.len() > 0,
    ensures
        s@ == tier_word(data, scenario_pt as int),
{
    let tier: usize = find_pt_effect_tier(data, scenario_pt);
    let e: &PtEffect = &data.ramen_pt_effect[tier];
    let mut parts: Vec<String> = Vec::new();
    assert(texts(parts@) =~= Seq::<Seq<char>>::empty());
    push_part(&mut parts, "训+", e.xunlian);
    assert(texts(parts@) =~= part("训+"@, e.xunlian as int));
    push_part(&mut parts, "得意+", e.deyilv);
    push_part(&mut parts, "hint+", e.hint);
    if parts.len() == 0 {
        "无加成".to_owned()
    } else {
        join(&parts, ",")
    }
}

/// Adds the name of a region, if there is such a region.
fn push_region(names: &mut Vec<String>, data: &RamenScenarioData, r: usize)
    ensures
        texts(final(names)@) == texts(old(names)@) + region_word(data, r),
{
    let ghost before = texts(names@);
    if r < data.ramen_region_effect.len() {
        names.push(data.ramen_region_effect[r].name.as_str().to_owned());
        assert(texts(names@) =~= before + seq![data.ramen_region_effect@[r as int].name@]);
    } else {
        assert(texts(names@) =~= before + Seq::<Seq<char>>::empty());
    }
}

/// Three numbers as a list.
fn list_of(n: &[i32; 3]) -> (s: String)
    ensures
        s@ == list_text(seq![n@[0] as int, n@[1] as int, n@[2] as int]),
{
    let mut s: String = "[".to_owned();
    append_int(&mut s, n[0] as i64);
    s.append(", ");
    append_int(&mut s, n[1] as i64);
    s.append(", ");
    append_int(&mut s, n[2] as i64);
    s.append("]");
    s
}

/// Stock and gauge of the three kinds.
fn feeling_of(stock: &[i32; 3], slot: &[i32; 3]) -> (s: String)
    ensures
        s@ == feeling_text(stock@, slot@),
{
    let mut s: String = "A".to_owned();
    append_int(&mut s, stock[0] as i64);
    s.append("/");
    append_int(&mut s, slot[0] as i64);
    s.append(" B");
    append_int(&mut s, stock[1] as i64);
    s.append("/");
    append_int(&mut s, slot[1] as i64);
    s.append(" C");
    append_int(&mut s, stock[2] as i64);
    s.append("/");
    append_int(&mut s, slot[2] as i64);
    s
}

impl RamenGame {
    /// The bowl that was eaten this turn, in words.
    fn bowl_text(&self, data: &RamenScenarioData) -> (s: String)
        requires
            data.complete(),
        ensures
            s@ == bowl_word(self, data),
    {
        match self.ramen.current_ramen {
            Some(r) => {
                if r < data.ramen_region_effect.len() {
                    let region: &RegionEffect = &data.ramen_region_effect[r];
                    let e: RamenTrainingEffect = calc_ramen_training_effect_with_ramen(
                        self,
                        data,
                        first_train_of(region),
                        false,
                        Some(r),
                    );
                    let parts: Vec<String> = list_bowl_parts(&e);
                    name_with_parts(region.name.as_str(), "(", &parts, ")")
                } else {
                    "无".to_owned()
                }
            },
            None => "无".to_owned(),
        }
    }

    /// The line of an ordinary turn, for the two cells that are coloured.
    pub fn explain_kitchen(&self, data: &RamenScenarioData, feeling: &str, special: &str) -> (s: String)
        requires
            data.complete(),
            data.recipes_valid(),
        ensures
            s@ == kitchen_line(self, data, feeling@, special@),
    {
        let bowl: String = self.bowl_text(data);
        let mut names: Vec<String> = Vec::new();
        assert(texts(names@) =~= Seq::<Seq<char>>::empty());
        push_region(&mut names, data, self.ramen.selected_regions[0]);
        assert(texts(names@) =~= region_word(data, self.ramen.selected_regions@[0]));
        push_region(&mut names, data, self.ramen.selected_regions[1]);
        push_region(&mut names, data, self.ramen.selected_regions[2]);
        let regions: String = join(&names, ",");
        let base: [i32; 3] = calc_gauge_base_distribution(data, &self.ramen.selected_regions);
        let gauges: String = list_of(&base);
        let tier: String = tier_text(data, self.ramen.scenario_pt);
        let mut s: String = "拉面: ".to_owned();
        s.append(bowl.as_str());
        s.append(" | 地区: ");
        s.append(regions.as_str());
        s.append(" 槽");
        s.append(gauges.as_str());
        s.append(" | 诀窍 ");
        s.append(feeling);
        s.append(" | 隐藏诀窍 ");
        s.append(special);
        s.append(" | PT");
        append_int(&mut s, self.ramen.scenario_pt as i64);
        s.append(" [");
        s.append(tier.as_str());
        s.append("]");
        s
    }

    /// The line that tells the state of the scenario at the start of a turn.
    pub fn explain_ramen_info(&self, data: &RamenScenarioData) -> (s: String)
        requires
            data.complete(),
            data.recipes_valid(),
        ensures
            info_shown(self, data, s@),
    {
        if self.base.turn < 2 {
            return String::new();
        }
        if self.is_super_ramen_turn() {
            let e: RamenTrainingEffect = calc_ramen_training_effect_with_ramen(
                self,
                data,
                0,
                false,
                None,
            );
            let parts: Vec<String> = list_super_parts(&e);
            return name_with_parts("超级拉面回合", " [", &parts, "]");
        }
        let stocks: String = feeling_of(&self.ramen.feeling_stock, &self.ramen.feeling_slot);
        let hidden: String = decimal(self.ramen.special_feeling);
        let feeling: String = paint(stocks.as_str(), Paint::Cyan);
        let special: String = paint(hidden.as_str(), Paint::Cyan);
        let s: String = self.explain_kitchen(data, feeling.as_str(), special.as_str());
        assert(painted(
            feeling_text(self.ramen.feeling_stock@, self.ramen.feeling_slot@),
            Paint::Cyan,
            feeling@,
        ));
        assert(painted(dec(self.ramen.special_feeling as int), Paint::Cyan, special@));
        s
    }
}

// ========== The trainings ==========

/// The texts and numbers of a training that a line shows: what it gives, the text for the status
/// values, and the text of the failure rate where that is above zero.
#[derive(Debug, Clone)]
pub struct TrainOutlook {
    pub value: ActionValue,
    pub status: String,
    pub fail: Option<String>,
}

/// The gauge points of one kind that a training gives.
pub open spec fn gauge_gain(game: &RamenGame, data: &RamenScenarioData, train: int, kind: int) -> int {
    let base = base_points(recipe_sum(data, game.ramen.selected_regions@))[kind];
    let bonus = 1 + game.kind_count(train, PersonType::Card) + game.kind_count(
        train,
        PersonType::Npc,
    ) / 2;
    let shown = game.ramen.train_feeling_type is Some
        && game.ramen.train_feeling_type->0@[train].idx() == kind;
    base + (if shown {
        bonus as int
    } else {
        0
    }) + (if game.shining(train).len() > 0 {
        2int
    } else {
        0
    })
}

/// The gauge points that a training gives can be computed: there are recipes, and the points are
/// machine integers.
pub open spec fn gauges_ready(game: &RamenGame, data: &RamenScenarioData, train: int) -> bool {
    &&& data.recipes_valid()
    &&& 1 + game.kind_count(train, PersonType::Card) + game.kind_count(train, PersonType::Npc) / 2
        <= i32::MAX
    &&& gauge_gain(game, data, train, 0) <= i32::MAX
    &&& gauge_gain(game, data, train, 1) <= i32::MAX
    &&& gauge_gain(game, data, train, 2) <= i32::MAX
}

/// The line of a training can be written.
pub open spec fn line_ready(
    game: &RamenGame,
    data: &RamenScenarioData,
    train: int,
    show_ramen: bool,
) -> bool {
    show_ramen && train < game.base.distribution@.len() ==> gauges_ready(game, data, train)
}

/// The gauge points that a training gives, in words.
pub open spec fn gauge_text(game: &RamenGame, data: &RamenScenarioData, train: int) -> Seq<char> {
    "诀窍槽 A+"@ + dec(gauge_gain(game, data, train, 0)) + " B+"@ + dec(
        gauge_gain(game, data, train, 1),
    ) + " C+"@ + dec(gauge_gain(game, data, train, 2))
}

/// The failure rate, in words; nothing where a training cannot fail.
pub open spec fn fail_text(fail: Option<String>) -> Seq<char> {
    match fail {
        Some(f) => " 失败率: "@ + f@ + "%"@,
        None => Seq::empty(),
    }
}

/// The values of a training that are shown while bowls can be picked: status, vitality and
/// motivation.
pub open spec fn shown_value(v: ActionValue) -> ActionValue {
    ActionValue { max_vital: 0, friendship: 0, hint_level: 0, ..v }
}

/// The line of a training: its values and failure rate, and its gauge points while bowls can be
/// picked.
pub open spec fn train_line(
    game: &RamenGame,
    data: &RamenScenarioData,
    label: Seq<char>,
    train: int,
    show_ramen: bool,
    outlook: TrainOutlook,
) -> Seq<char> {
    if !show_ramen {
        label + " "@ + value_text(&outlook.value, outlook.status@) + fail_text(outlook.fail)
    } else if train >= game.base.distribution@.len() {
        label + " 训练位未就绪"@
    } else {
        label + " "@ + value_text(&shown_value(outlook.value), outlook.status@) + fail_text(
            outlook.fail,
        ) + " "@ + gauge_text(game, data, train)
    }
}

/// Appends the failure rate.
fn append_fail(s: &mut String, fail: &Option<String>)
    ensures
        final(s)@ == old(s)@ + fail_text(*fail),
{
    let ghost before = s@;
    match fail {
        Some(f) => {
            s.append(" 失败率: ");
            s.append(f.as_str());
            s.append("%");
            assert(s@ =~= before + (" 失败率: "@ + f@ + "%"@));
        },
        None => {
            assert(s@ =~= before + Seq::<char>::empty());
        },
    }
}

/// The short names of the five trainings.
pub open spec fn train_word(train: int) -> Seq<char> {
    if train == 0 {
        "速"@
    } else if train == 1 {
        "耐"@
    } else if train == 2 {
        "力"@
    } else if train == 3 {
        "根"@
    } else {
        "智"@
    }
}

/// The letter of a kind.
pub open spec fn kind_word(kind: FeelingType) -> Seq<char> {
    match kind {
        FeelingType::A => "A"@,
        FeelingType::B => "B"@,
        FeelingType::C => "C"@,
    }
}

/// The head of a training in the table: its short name, and the kind it shows while bowls can be
/// picked.
pub open spec fn header_text(game: &RamenGame, train: int) -> Seq<char> {
    match game.ramen.train_feeling_type {
        Some(kinds) if bowl_turn(game.base.turn as int) => train_word(train) + kind_word(kinds@[train]),
        _ => train_word(train),
    }
}

/// The heads of the five trainings.
pub open spec fn header_texts(game: &RamenGame) -> Seq<Seq<char>> {
    Seq::new(5, |t: int| header_text(game, t))
}

/// A text without the marks in front of it.
pub open spec fn unmarked(s: Seq<char>) -> Seq<char>
    decreases s.len(),
{
    if s.len() > 0 && s[0] == '!' {
        unmarked(s.skip(1))
    } else {
        s
    }
}

/// The mark of a hint, in its colour.
pub open spec fn mark_shown(p: BasePerson, out: Seq<char>) -> bool {
    if p.is_hint {
        painted("!"@, Paint::BrightYellow, out)
    } else {
        out == Seq::<char>::empty()
    }
}

/// The name of a person, in the colour of a friendship training or of the scenario's friend.
pub open spec fn name_shown(p: BasePerson, name: Seq<char>, shining: bool, out: Seq<char>) -> bool {
    let raw = person_text(&p, name);
    let bare = if p.is_hint {
        unmarked(raw)
    } else {
        raw
    };
    if shining {
        painted(bare, Paint::BrightGreen, out)
    } else if p.person_type == PersonType::ScenarioCard {
        painted(bare, Paint::Green, out)
    } else {
        out == bare
    }
}

/// A person in colours.
pub open spec fn person_coloured(p: BasePerson, name: Seq<char>, shining: bool, out: Seq<char>) -> bool {
    exists|mark: Seq<char>, word: Seq<char>|
        #[trigger] mark_shown(p, mark) && #[trigger] name_shown(p, name, shining, word) && out
            == mark + word
}

/// A person without colours: a friendship training is marked by two signs.
pub open spec fn person_plain(p: BasePerson, name: Seq<char>, shining: bool) -> Seq<char> {
    if shining {
        "+"@ + person_text(&p, name) + "+"@
    } else {
        person_text(&p, name)
    }
}

/// A cell of the table: the person at a place of a training, or nothing.
pub open spec fn cell_shown(
    game: &RamenGame,
    names: Seq<String>,
    coloured: bool,
    place: int,
    train: int,
    out: Seq<char>,
) -> bool {
    let row = game.row(train);
    if place < row.len() && known(game.persons@, row[place]) {
        let p = game.persons@[row[place] as int];
        let name = names[row[place] as int]@;
        let shining = shines(game.persons@, game.group_buff(), row[place] as int, train);
        if coloured {
            person_coloured(p, name, shining, out)
        } else {
            out == person_plain(p, name, shining)
        }
    } else {
        out == Seq::<char>::empty()
    }
}

/// A row of the table.
pub open spec fn row_shown(
    game: &RamenGame,
    names: Seq<String>,
    coloured: bool,
    place: int,
    row: Seq<Seq<char>>,
) -> bool {
    &&& row.len() == 5
    &&& forall|t: int|
        0 <= t < 5 ==> cell_shown(game, names, coloured, place, t, #[trigger] row[t])
}

/// The six rows of the table.
pub open spec fn cells_shown(
    game: &RamenGame,
    names: Seq<String>,
    coloured: bool,
    cells: Seq<Seq<Seq<char>>>,
) -> bool {
    &&& cells.len() == 6
    &&& forall|i: int| 0 <= i < 6 ==> row_shown(game, names, coloured, i, #[trigger] cells[i])
}

/// The lines of the five trainings.
pub open spec fn train_lines(
    game: &RamenGame,
    data: &RamenScenarioData,
    headers: Seq<Seq<char>>,
    show_ramen: bool,
    outlooks: Seq<TrainOutlook>,
) -> Seq<Seq<char>> {
    Seq::new(5, |t: int| train_line(game, data, headers[t], t, show_ramen, outlooks[t]))
}

/// A text without the marks in front of it.
fn without_marks(s: &str) -> (r: String)
    ensures
        r@ == unmarked(s@),
{
    let n: usize = s.unicode_len();
    let mut i: usize = 0;
    assert(s@.skip(0) =~= s@);
    while i < n && s.get_char(i) == '!'
        invariant
            i <= n,
            n == s@.len(),
            unmarked(s@) == unmarked(s@.skip(i as int)),
        decreases n - i,
    {
        assert(s@.skip(i as int).skip(1) =~= s@.skip(i as int + 1));
        i = i + 1;
    }
    let r: &str = s.substring_char(i, n);
    assert(r@ =~= s@.skip(i as int));
    r.to_owned()
}

/// The short name of a training.
fn train_label(train: usize) -> (s: &'static str)
    requires
        train < 5,
    ensures
        s@ == train_word(train as int),
{
    match train {
        0 => "速",
        1 => "耐",
        2 => "力",
        3 => "根",
        _ => "智",
    }
}

/// The letter of a kind.
fn kind_label(kind: FeelingType) -> (s: &'static str)
    ensures
        s@ == kind_word(kind),
{
    match kind {
        FeelingType::A => "A",
        FeelingType::B => "B",
        FeelingType::C => "C",
    }
}

/// The table and the lines that follow it.
pub fn with_lines(table: String, lines: &Vec<String>) -> (s: String)
    ensures
        s@ == joined(seq![table@] + texts(lines@), "\n"@),
{
    let mut all: Vec<String> = Vec::new();
    all.push(table);
    let mut i: usize = 0;
    assert(texts(all@) =~= seq![table@] + texts(lines@).take(0));
    while i < lines.len()
        invariant
            i <= lines@.len(),
            texts(all@) == seq![table@] + texts(lines@).take(i as int),
        decreases lines@.len() - i,
    {
        let ghost before = texts(all@);
        all.push(lines[i].as_str().to_owned());
        assert(texts(all@) =~= before.push(lines@[i as int]@));
        assert(texts(all@) =~= seq![table@] + texts(lines@).take(i as int + 1));
        i = i + 1;
    }
    assert(texts(lines@).take(lines@.len() as int) =~= texts(lines@));
    join(&all, "\n")
}

impl RamenGame {
    /// A person in colours: a yellow mark for a hint, bright green for a friendship training,
    /// green for the scenario's friend.
    pub fn format_person_colored(p: &BasePerson, name: &str, shining: bool) -> (s: String)
        ensures
            person_coloured(*p, name@, shining, s@),
    {
        let raw: String = p.explain(name);
        let mark: String = if p.is_hint {
            paint("!", Paint::BrightYellow)
        } else {
            String::new()
        };
        let bare: String = if p.is_hint {
            without_marks(raw.as_str())
        } else {
            raw
        };
        let friend: bool = match p.person_type {
            PersonType::ScenarioCard => true,
            _ => false,
        };
        let word: String = if shining {
            paint(bare.as_str(), Paint::BrightGreen)
        } else if friend {
            paint(bare.as_str(), Paint::Green)
        } else {
            bare
        };
        let mut s: String = mark.as_str().to_owned();
        s.append(word.as_str());
        assert(mark_shown(*p, mark@) && name_shown(*p, name@, shining, word@));
        s
    }

    /// A cell of the table.
    fn cell(&self, names: &Vec<String>, coloured: bool, place: usize, train: usize) -> (s: String)
        requires
            names@.len() == self.persons@.len(),
        ensures
            cell_shown(self, names@, coloured, place as int, train as int, s@),
    {
        if train >= self.base.distribution.len() {
            return String::new();
        }
        let row: &Vec<i32> = &self.base.distribution[train];
        if place >= row.len() {
            return String::new();
        }
        let id: i32 = row[place];
        if id < 0 || id as usize >= self.persons.len() {
            return String::new();
        }
        let p: &BasePerson = &self.persons[id as usize];
        let name: &String = &names[id as usize];
        let shining: bool = self.is_shining_at(id as usize, train);
        if coloured {
            Self::format_person_colored(p, name.as_str(), shining)
        } else {
            let text: String = p.explain(name.as_str());
            if shining {
                let mut s: String = "+".to_owned();
                s.append(text.as_str());
                s.append("+");
                s
            } else {
                text
            }
        }
    }

    /// The rows of the table of the trainings, given the name of every person and whether texts
    /// are coloured.
    pub fn distribution_rows(&self, names: &Vec<String>, coloured: bool) -> (rows: Vec<Vec<String>>)
        requires
            names@.len() == self.persons@.len(),
        ensures
            cells_shown(self, names@, coloured, cell_texts(rows@)),
            forall|i: int| 0 <= i < rows@.len() ==> (#[trigger] rows@[i])@.len() == 5,
    {
        let mut rows: Vec<Vec<String>> = Vec::new();
        let mut i: usize = 0;
        while i < 6
            invariant
                i <= 6,
                rows@.len() == i,
                names@.len() == self.persons@.len(),
                forall|k: int|
                    0 <= k < i ==> row_shown(
                        self,
                        names@,
                        coloured,
                        k,
                        texts((#[trigger] rows@[k])@),
                    ),
            decreases 6 - i,
        {
            let mut row: Vec<String> = Vec::new();
            let mut train: usize = 0;
            while train < 5
                invariant
                    train <= 5,
                    row@.len() == train,
                    names@.len() == self.persons@.len(),
                    forall|t: int|
                        0 <= t < train ==> cell_shown(
                            self,
                            names@,
                            coloured,
                            i as int,
                            t,
                            (#[trigger] row@[t])@,
                        ),
                decreases 5 - train,
            {
                row.push(self.cell(names, coloured, i, train));
                train = train + 1;
            }
            assert(row_shown(self, names@, coloured, i as int, texts(row@)));
            rows.push(row);
            i = i + 1;
        }
        assert forall|k: int| 0 <= k < 6 implies row_shown(
            self,
            names@,
            coloured,
            k,
            #[trigger] cell_texts(rows@)[k],
        ) by {
            assert(cell_texts(rows@)[k] == texts(rows@[k]@));
        }
        assert forall|k: int| 0 <= k < rows@.len() implies (#[trigger] rows@[k])@.len() == 5 by {
            assert(texts(rows@[k]@).len() == 5);
        }
        rows
    }

    /// The heads of the five trainings.
    pub fn distribution_headers(&self) -> (headers: Vec<String>)
        ensures
            texts(headers@) == header_texts(self),
            headers@.len() == 5,
    {
        let mut headers: Vec<String> = Vec::new();
        let show: bool = self.base.turn >= 2 && !self.is_super_ramen_turn();
        let mut train: usize = 0;
        while train < 5
            invariant
                train <= 5,
                headers@.len() == train,
                show == bowl_turn(self.base.turn as int),
                forall|t: int| 0 <= t < train ==> (#[trigger] headers@[t])@ == header_text(self, t),
            decreases 5 - train,
        {
            let mut h: String = train_label(train).to_owned();
            if show {
                if let Some(kinds) = self.ramen.train_feeling_type {
                    h.append(kind_label(kinds[train]));
                }
            }
            headers.push(h);
            train = train + 1;
        }
        assert(texts(headers@) =~= header_texts(self));
        headers
    }

    /// The gauge points of one kind that a training gives.
    fn gauge_of(&self, base: &[i32; 3], train: usize, bonus: i32, kind: FeelingType) -> (g: i32)
        requires
            train < 5,
            0 <= base@[kind.idx()] <= 10,
            0 <= bonus,
            base@[kind.idx()] + (if self.ramen.train_feeling_type is Some
                && self.ramen.train_feeling_type->0@[train as int] == kind {
                bonus as int
            } else {
                0
            }) + (if self.shining(train as int).len() > 0 {
                2int
            } else {
                0
            }) <= i32::MAX,
        ensures
            g == base@[kind.idx()] + (if self.ramen.train_feeling_type is Some
                && self.ramen.train_feeling_type->0@[train as int] == kind {
                bonus as int
            } else {
                0
            }) + (if self.shining(train as int).len() > 0 {
                2int
            } else {
                0
            }),
    {
        let mut g: i32 = base[kind.index()];
        if let Some(kinds) = self.ramen.train_feeling_type {
            if kinds[train] == kind {
                g = g + bonus;
            }
        }
        if self.shining_count(train) > 0 {
            g = g + 2;
        }
        g
    }

    /// The gauge points that a training gives, in words.
    fn gauge_detail(&self, data: &RamenScenarioData, train: usize) -> (s: String)
        requires
            train < 5,
            gauges_ready(self, data, train as int),
        ensures
            s@ == gauge_text(self, data, train as int),
    {
        let support: usize = self.count_kind_at(train, PersonType::Card);
        let npc: usize = self.count_kind_at(train, PersonType::Npc);
        let bonus: i32 = calc_train_feeling_bonus(support, npc);
        let base: [i32; 3] = calc_gauge_base_distribution(data, &self.ramen.selected_regions);
        let a: i32 = self.gauge_of(&base, train, bonus, FeelingType::A);
        let b: i32 = self.gauge_of(&base, train, bonus, FeelingType::B);
        let c: i32 = self.gauge_of(&base, train, bonus, FeelingType::C);
        let mut s: String = "诀窍槽 A+".to_owned();
        append_int(&mut s, a as i64);
        s.append(" B+");
        append_int(&mut s, b as i64);
        s.append(" C+");
        append_int(&mut s, c as i64);
        s
    }

    /// The line of a training: its label, its values, its failure rate and its gauge points.
    pub fn train_value_line(
        &self,
        data: &RamenScenarioData,
        label: &str,
        train: usize,
        show_ramen: bool,
        outlook: &TrainOutlook,
    ) -> (s: String)
        requires
            train < 5,
            line_ready(self, data, train as int, show_ramen),
        ensures
            s@ == train_line(self, data, label@, train as int, show_ramen, *outlook),
    {
        let mut s: String = label.to_owned();
        if !show_ramen {
            let value: String = outlook.value.explain(outlook.status.as_str());
            s.append(" ");
            s.append(value.as_str());
            append_fail(&mut s, &outlook.fail);
            return s;
        }
        if train >= self.base.distribution.len() {
            s.append(" 训练位未就绪");
            return s;
        }
        let shown: ActionValue = ActionValue {
            status_pt: outlook.value.status_pt,
            vital: outlook.value.vital,
            motivation: outlook.value.motivation,
            max_vital: 0,
            friendship: 0,
            hint_level: 0,
        };
        let value: String = shown.explain(outlook.status.as_str());
        let gauges: String = self.gauge_detail(data, train);
        s.append(" ");
        s.append(value.as_str());
        append_fail(&mut s, &outlook.fail);
        s.append(" ");
        s.append(gauges.as_str());
        s
    }

    /// The lines of the five trainings.
    pub fn collect_train_lines(
        &self,
        data: &RamenScenarioData,
        headers: &Vec<String>,
        show_ramen: bool,
        outlooks: &[TrainOutlook; 5],
    ) -> (lines: Vec<String>)
        requires
            headers@.len() == 5,
            forall|t: int| 0 <= t < 5 ==> #[trigger] line_ready(self, data, t, show_ramen),
        ensures
            texts(lines@) == train_lines(self, data, texts(headers@), show_ramen, outlooks@),
    {
        let mut lines: Vec<String> = Vec::new();
        let mut train: usize = 0;
        while train < 5
            invariant
                train <= 5,
                lines@.len() == train,
                headers@.len() == 5,
                forall|t: int| 0 <= t < 5 ==> #[trigger] line_ready(self, data, t, show_ramen),
                forall|t: int|
                    0 <= t < train ==> (#[trigger] lines@[t])@ == train_line(
                        self,
                        data,
                        headers@[t]@,
                        t,
                        show_ramen,
                        outlooks@[t],
                    ),
            decreases 5 - train,
        {
            lines.push(
                self.train_value_line(data, headers[train].as_str(), train, show_ramen, &outlooks[train]),
            );
            train = train + 1;
        }
        assert(texts(lines@) =~= train_lines(self, data, texts(headers@), show_ramen, outlooks@));
        lines
    }

    /// The table of the trainings and the line of each, given the name of every person.
    pub fn explain_distribution(
        &self,
        data: &RamenScenarioData,
        names: &Vec<String>,
        outlooks: &[TrainOutlook; 5],
    ) -> (s: String)
        requires
            names@.len() == self.persons@.len(),
            forall|t: int|
                0 <= t < 5 ==> #[trigger] line_ready(
                    self,
                    data,
                    t,
                    bowl_turn(self.base.turn as int),
                ),
        ensures
            exists|coloured: bool, cells: Seq<Seq<Seq<char>>>|
                #[trigger] cells_shown(self, names@, coloured, cells) && s@ == joined(
                    seq![table_text(header_texts(self), cells, TABLE_WIDTH, TRAIN_SHARE)]
                        + train_lines(
                        self,
                        data,
                        header_texts(self),
                        bowl_turn(self.base.turn as int),
                        outlooks@,
                    ),
                    "\n"@,
                ),
    {
        let headers: Vec<String> = self.distribution_headers();
        let coloured: bool = colours_on();
        let rows: Vec<Vec<String>> = self.distribution_rows(names, coloured);
        let table: String = draw_table(&headers, &rows, TABLE_WIDTH, TRAIN_SHARE);
        let show: bool = self.base.turn >= 2 && !self.is_super_ramen_turn();
        assert(show == bowl_turn(self.base.turn as int));
        let lines: Vec<String> = self.collect_train_lines(data, &headers, show, outlooks);
        let s: String = with_lines(table, &lines);
        assert(cells_shown(self, names@, coloured, cell_texts(rows@)));
        s
    }

    /// The line of a training among the answers of a turn, under the name of the training.
    pub fn train_candidate_preview(
        &self,
        data: &RamenScenarioData,
        train_name: &str,
        train: usize,
        outlook: &TrainOutlook,
    ) -> (s: String)
        requires
            train < 5,
            line_ready(self, data, train as int, bowl_turn(self.base.turn as int)),
        ensures
            s@ == train_line(
                self,
                data,
                train_name@ + "训练"@,
                train as int,
                bowl_turn(self.base.turn as int),
                *outlook,
            ),
    {
        let mut label: String = train_name.to_owned();
        label.append("训练");
        let show: bool = self.base.turn >= 2 && !self.is_super_ramen_turn();
        self.train_value_line(data, label.as_str(), train, show, outlook)
    }

    /// The line of a bowl among the answers of a turn: its name and what eating it would give at
    /// the first training it covers, friendship bonus included. Refused for an unknown bowl.
    pub fn ramen_candidate_preview(&self, data: &RamenScenarioData, region_idx: usize) -> (r: Result<
        String,
        SimError,
    >)
        requires
            data.complete(),
        ensures
            match r {
                Ok(s) => region_idx < data.ramen_region_effect@.len() && s@ == "吃面/"@ + with_parts(
                    data.ramen_region_effect@[region_idx as int].name@,
                    " ("@,
                    effect_parts(
                        scenario_effect(
                            self,
                            data,
                            first_train(data.ramen_region_effect@[region_idx as int]),
                            true,
                            Some(region_idx),
                        ),
                    ),
                    ")"@,
                ),
                Err(e) => region_idx >= data.ramen_region_effect@.len() && e
                    == (SimError::RegionOutOfRange { region_id: region_idx }),
            },
    {
        if region_idx >= data.ramen_region_effect.len() {
            return Err(SimError::RegionOutOfRange { region_id: region_idx });
        }
        let region: &RegionEffect = &data.ramen_region_effect[region_idx];
        let e: RamenTrainingEffect = calc_ramen_training_effect_with_ramen(
            self,
            data,
            first_train_of(region),
            true,
            Some(region_idx),
        );
        let parts: Vec<String> = format_ramen_effect_parts(&e);
        let named: String = name_with_parts(region.name.as_str(), " (", &parts, ")");
        let mut s: String = "吃面/".to_owned();
        s.append(named.as_str());
        Ok(s)
    }

    /// The two lines that tell the state of a turn, given the words for its stage, the levels of
    /// the trainings and the friend, and the line of the character.
    pub fn explain(&self, stage: &str, levels: &str, friend: &str, uma: &str) -> (s: String)
        ensures
            s@ == "回合: "@ + dec(self.base.turn + 1) + "-"@ + stage@ + " 设施等级: "@ + levels@
                + " 友人: "@ + friend@ + "\n"@ + uma@,
    {
        let mut s: String = "回合: ".to_owned();
        append_int(&mut s, self.base.turn as i64 + 1);
        s.append("-");
        s.append(stage);
        s.append(" 设施等级: ");
        s.append(levels);
        s.append(" 友人: ");
        s.append(friend);
        s.append("\n");
        s.append(uma);
        s
    }
}

/// What is shown of a bowl before it is eaten is what the turn has once it is: the effect in the
/// line of the answer is the scenario's effect on the state with that bowl eaten.
pub proof fn law_preview_shows_the_eaten_bowl(
    game: RamenGame,
    eaten: RamenGame,
    data: &RamenScenarioData,
    bowl: usize,
    train: usize,
    is_shining: bool,
)
    requires
        eaten.ramen == (super::RamenState { current_ramen: Some(bowl), ..game.ramen }),
        eaten == (RamenGame { ramen: eaten.ramen, ..game }),
    ensures
        scenario_effect(&game, data, train, is_shining, Some(bowl)) == scenario_effect(
            &eaten,
            data,
            train,
            is_shining,
            eaten.ramen.current_ramen,
        ),
{
}

/// The name under which a person is shown.
pub open spec fn shown_name(data: &GameData, p: BasePerson) -> Seq<char> {
    person_name(
        p.person_type,
        match p.card_id {
            Some(id) if data.card@.dom().contains(id) => Some(
                card_short_name(data.card@[id].card_name@),
            ),
            _ => None,
        },
        name_of(data.names@, p.chara_id),
    )
}

/// Every card name has its kind in brackets.
pub open spec fn card_names_ok(data: &GameData) -> bool {
    forall|id: u32| #[trigger]
        data.card@.dom().contains(id) ==> find_from(data.card@[id].card_name@, ']', 0)
            < data.card@[id].card_name@.len()
}

/// The state of a game in a few numbers.
#[derive(Debug, Clone)]
pub struct GameView {
    /// Name of the scenario.
    pub scenario: String,
    /// Turn, from one.
    pub turn: u32,
    /// Last turn, from zero.
    pub max_turn: u32,
    pub vital: i32,
    pub max_vital: i32,
    pub motivation: i32,
    pub skill_pt: i32,
    pub total_hints: i32,
}

impl RamenGame {
    /// The names under which the persons are shown.
    pub fn person_names(&self, data: &GameData) -> (names: Vec<String>)
        requires
            card_names_ok(data),
        ensures
            texts(names@) == Seq::new(self.persons@.len(), |i: int| shown_name(data, self.persons@[i])),
    {
        let mut names: Vec<String> = Vec::new();
        let mut i: usize = 0;
        while i < self.persons.len()
            invariant
                i <= self.persons@.len(),
                names@.len() == i,
                card_names_ok(data),
                forall|k: int|
                    0 <= k < i ==> (#[trigger] names@[k])@ == shown_name(data, self.persons@[k]),
            decreases self.persons@.len() - i,
        {
            let p: &BasePerson = &self.persons[i];
            let chara: &str = data.get_chara_name(p.chara_id);
            let name: String = match p.card_id {
                Some(id) => match data.get_card(id) {
                    Ok(card) => {
                        let short: String = card.short_name();
                        p.short_name(Some(short.as_str()), chara)
                    },
                    Err(_) => p.short_name(None, chara),
                },
                None => p.short_name(None, chara),
            };
            names.push(name);
            i = i + 1;
        }
        assert(texts(names@) =~= Seq::new(
            self.persons@.len(),
            |i: int| shown_name(data, self.persons@[i]),
        ));
        names
    }

    /// The state of the game in a few numbers, without the name of the scenario.
    pub fn game_view(&self) -> (v: GameView)
        ensures
            v.scenario@ == Seq::<char>::empty(),
            v.turn == if self.base.turn < -1 {
                0
            } else {
                self.base.turn + 1
            },
            v.max_turn == MAX_TURN,
            v.vital == self.base.uma.vital,
            v.max_vital == self.base.uma.max_vital,
            v.motivation == self.base.uma.motivation,
            v.skill_pt == self.base.uma.skill_pt,
            v.total_hints == self.base.uma.total_hints,
    {
        let turn: u32 = if self.base.turn < -1 {
            0
        } else {
            (self.base.turn as i64 + 1) as u32
        };
        GameView {
            scenario: String::new(),
            turn,
            max_turn: self.max_turn() as u32,
            vital: self.base.uma.vital,
            max_vital: self.base.uma.max_vital,
            motivation: self.base.uma.motivation,
            skill_pt: self.base.uma.skill_pt,
            total_hints: self.base.uma.total_hints,
        }
    }
}

/// The report of a training foretells its gauges: each kind gets the year's share, the kind shown there
/// one more and one for every card and every two bystanders at it, and a friendship training two for
/// every kind.
pub proof fn law_report_foretells_the_gauges(
    game: &RamenGame,
    data: &RamenScenarioData,
    train: int,
    kind: FeelingType,
    kinds: [FeelingType; 5],
)
    requires
        0 <= train < 5,
        game.ramen.train_feeling_type == Some(kinds),
    ensures
        ({
            let share = base_points(recipe_sum(data, game.ramen.selected_regions@))[kind.idx()];
            let cards = game.row(train).filter(
                |p: i32| is_kind(game.persons@, p, PersonType::Card),
            ).len();
            let bystanders = game.row(train).filter(
                |p: i32| is_kind(game.persons@, p, PersonType::Npc),
            ).len();
            gauge_gain(game, data, train, kind.idx()) - share == (if kinds@[train] == kind {
                1 + cards + bystanders / 2
            } else {
                0
            }) + (if game.shining(train).len() > 0 {
                2int
            } else {
                0
            })
        }),
{
}

/// Headers show the kind at each training on turns with bowls, two to seventy-one, and none on the
/// turns before them or of the super ramen.
pub proof fn law_headers_show_kinds(game: &RamenGame, train: int, kinds: [FeelingType; 5])
    requires
        0 <= train < 5,
        game.ramen.train_feeling_type == Some(kinds),
        game.base.turn <= 77,
    ensures
        2 <= game.base.turn <= 71 ==> header_text(game, train) =~= train_word(train) + kind_word(
            kinds@[train],
        ),
        game.base.turn < 2 || 72 <= game.base.turn ==> header_text(game, train) == train_word(train),
{
}

/// A table of persons has a cell for each that stands there, and marks those who make the training a
/// friendship training.
pub proof fn law_cells_show_who_stands_there(
    game: &RamenGame,
    names: Seq<String>,
    place: int,
    train: int,
    out: Seq<char>,
)
    requires
        cell_shown(game, names, false, place, train, out),
        0 <= place,
        0 <= train < game.base.distribution@.len(),
    ensures
        place >= game.base.distribution@[train]@.len() ==> out.len() == 0,
        ({
            let p = game.base.distribution@[train]@[place];
            let person = game.persons@[p as int];
            let shines = match person.person_type {
                PersonType::Card => person.train_type == train && person.friendship >= 80,
                PersonType::ScenarioCard => game.base.friend.group_buff_turn > 0,
                _ => false,
            };
            place < game.base.distribution@[train]@.len() && 0 <= p < game.persons@.len() ==> out
                =~= if shines {
                "+"@ + person_text(&person, names[p as int]@) + "+"@
            } else {
                person_text(&person, names[p as int]@)
            }
        }),
{
}

/// A bowl is previewed at the first training that its region covers.
pub proof fn law_preview_takes_the_first_training(region: RegionEffect)
    ensures
        region.at_trains@.len() == 0 ==> first_train(region) == 0,
        region.at_trains@.len() > 0 && region.at_trains@[0] >= 0 ==> first_train(region)
            == region.at_trains@[0],
{
}

} // verus!
