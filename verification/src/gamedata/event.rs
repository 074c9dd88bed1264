use vstd::prelude::*;
use crate::error::SimError;
use crate::game::uma::{flags_explained, UmaFlags};
use crate::gamedata::constants::GameConstants;
use crate::lists::{holds, lemma_filter_start, lemma_filter_step};
use crate::text::{append_int, dec, join, joined, texts};

verus! {

/// When an event takes place.
#[derive(Debug, Default)]
pub enum TriggerType {
    /// On any turn, at most so many times; zero for no limit.
    Random { max_time: u32 },
    /// Only where the rules ask for it.
    #[default]
    Code,
    /// On fixed turns.
    Fixed { turns: Vec<i32> },
}

/// When an event takes place, as a mathematical value.
pub enum TriggerView {
    Random { max_time: int },
    Code,
    Fixed { turns: Seq<i32> },
}

impl View for TriggerType {
    type V = TriggerView;

    open spec fn view(&self) -> TriggerView {
        match self {
            TriggerType::Random { max_time } => TriggerView::Random { max_time: *max_time as int },
            TriggerType::Code => TriggerView::Code,
            TriggerType::Fixed { turns } => TriggerView::Fixed { turns: turns@ },
        }
    }
}

impl Clone for TriggerType {
    fn clone(&self) -> (t: TriggerType)
        ensures
            t@ == self@,
    {
        match self {
            TriggerType::Random { max_time } => TriggerType::Random { max_time: *max_time },
            TriggerType::Code => TriggerType::Code,
            TriggerType::Fixed { turns } => TriggerType::Fixed { turns: turns.clone() },
        }
    }
}

/// Values of a training or an event.
#[derive(Debug, Clone, Copy, PartialEq, Eq)]
pub struct ActionValue {
    /// Status values, skill points last.
    pub status_pt: [i32; 6],
    /// Vitality.
    pub vital: i32,
    /// Largest vitality.
    pub max_vital: i32,
    /// Motivation.
    pub motivation: i32,
    /// Hint level.
    pub hint_level: i32,
    /// Bond.
    pub friendship: i32,
}

impl Default for ActionValue {
    fn default() -> (v: ActionValue)
        ensures
            v.status_pt@ == seq![0i32, 0, 0, 0, 0, 0],
            v.vital == 0,
            v.max_vital == 0,
            v.motivation == 0,
            v.hint_level == 0,
            v.friendship == 0,
    {
        ActionValue {
            status_pt: [0, 0, 0, 0, 0, 0],
            vital: 0,
            max_vital: 0,
            motivation: 0,
            hint_level: 0,
            friendship: 0,
        }
    }
}

/// A labelled number behind a text, or nothing for zero.
pub open spec fn labelled(label: Seq<char>, value: int) -> Seq<char> {
    if value != 0 {
        label + dec(value)
    } else {
        Seq::empty()
    }
}

/// The line that describes values, given the text for the status values.
pub open spec fn value_text(v: &ActionValue, status: Seq<char>) -> Seq<char> {
    status + labelled(" 体力"@, v.vital as int) + labelled(" 最大体力+"@, v.max_vital as int)
        + labelled(" 羁绊+"@, v.friendship as int) + labelled(" 干劲"@, v.motivation as int)
        + labelled(" Hint+"@, v.hint_level as int)
}

/// Appends a labelled number, or nothing for zero.
fn append_labelled(s: &mut String, label: &str, value: i32)
    ensures
        final(s)@ == old(s)@ + labelled(label@, value as int),
{
    let ghost before = s@;
    if value != 0 {
        s.append(label);
        append_int(s, value as i64);
        assert(s@ =~= before + labelled(label@, value as int));
    } else {
        assert(s@ =~= before + labelled(label@, value as int));
    }
}

impl ActionValue {
    /// The line that describes the values, given the text for the status values.
    pub fn explain(&self, status: &str) -> (s: String)
        ensures
            s@ == value_text(self, status@),
    {
        let mut s: String = status.to_owned();
        append_labelled(&mut s, " 体力", self.vital);
        append_labelled(&mut s, " 最大体力+", self.max_vital);
        append_labelled(&mut s, " 羁绊+", self.friendship);
        append_labelled(&mut s, " 干劲", self.motivation);
        append_labelled(&mut s, " Hint+", self.hint_level);
        s
    }

    /// Maps the status values and skill points, one by one.
    pub fn map_status<F: Fn(i32) -> i32>(&mut self, f: &F)
        requires
            forall|x: i32| #[trigger] call_requires(*f, (x,)),
        ensures
            forall|i: int|
                0 <= i < 6 ==> call_ensures(
                    *f,
                    (old(self).status_pt@[i],),
                    #[trigger] final(self).status_pt@[i],
                ),
            *final(self) == (ActionValue { status_pt: final(self).status_pt, ..*old(self) }),
    {
        let mut i: usize = 0;
        while i < 6
            invariant
                i <= 6,
                forall|x: i32| #[trigger] call_requires(*f, (x,)),
                *self == (ActionValue { status_pt: self.status_pt, ..*old(self) }),
                forall|j: int|
                    0 <= j < i ==> call_ensures(
                        *f,
                        (old(self).status_pt@[j],),
                        #[trigger] self.status_pt@[j],
                    ),
                forall|j: int| i <= j < 6 ==> #[trigger] self.status_pt@[j] == old(self).status_pt@[j],
            decreases 6 - i,
        {
            let x: i32 = self.status_pt[i];
            let y: i32 = f(x);
            self.status_pt[i] = y;
            i = i + 1;
        }
    }
}

/// How an event turned out.
#[derive(Debug, Clone, Copy, PartialEq, Eq, Structural, Default)]
pub enum ChoiceResult {
    #[default]
    Normal,
    Success,
    BigSuccess,
    Fail,
    BigFail,
}

impl ChoiceResult {
    /// The number of an outcome.
    pub open spec fn number(self) -> int {
        match self {
            ChoiceResult::Normal => 0,
            ChoiceResult::Success => 1,
            ChoiceResult::BigSuccess => 2,
            ChoiceResult::Fail => 3,
            ChoiceResult::BigFail => 4,
        }
    }

    /// The outcome with a number; the normal one for unknown numbers.
    pub open spec fn of(n: int) -> ChoiceResult {
        if n == 1 {
            ChoiceResult::Success
        } else if n == 2 {
            ChoiceResult::BigSuccess
        } else if n == 3 {
            ChoiceResult::Fail
        } else if n == 4 {
            ChoiceResult::BigFail
        } else {
            ChoiceResult::Normal
        }
    }

    /// The label of an outcome.
    pub open spec fn label(self) -> Seq<char> {
        match self {
            ChoiceResult::Normal => ""@,
            ChoiceResult::Success => "[成功]"@,
            ChoiceResult::BigSuccess => "[大成功]"@,
            ChoiceResult::Fail => "[失败]"@,
            ChoiceResult::BigFail => "[大失败]"@,
        }
    }

    /// The number of an outcome.
    pub fn to_number(self) -> (n: i32)
        ensures
            n == self.number(),
    {
        match self {
            ChoiceResult::Normal => 0,
            ChoiceResult::Success => 1,
            ChoiceResult::BigSuccess => 2,
            ChoiceResult::Fail => 3,
            ChoiceResult::BigFail => 4,
        }
    }

    /// The outcome with a number; the normal one for unknown numbers.
    pub fn from_number(n: i32) -> (r: ChoiceResult)
        ensures
            r == ChoiceResult::of(n as int),
    {
        match n {
            1 => ChoiceResult::Success,
            2 => ChoiceResult::BigSuccess,
            3 => ChoiceResult::Fail,
            4 => ChoiceResult::BigFail,
            _ => ChoiceResult::Normal,
        }
    }

    /// The label of an outcome.
    pub fn text(self) -> (s: String)
        ensures
            s@ == self.label(),
    {
        match self {
            ChoiceResult::Normal => "".to_owned(),
            ChoiceResult::Success => "[成功]".to_owned(),
            ChoiceResult::BigSuccess => "[大成功]".to_owned(),
            ChoiceResult::Fail => "[失败]".to_owned(),
            ChoiceResult::BigFail => "[大失败]".to_owned(),
        }
    }
}

/// Numbering outcomes and reading the numbers back gives the same outcomes.
pub proof fn law_choice_result_roundtrip(r: ChoiceResult)
    ensures
        ChoiceResult::of(r.number()) == r,
{
}

/// One possible outcome of an event.
#[derive(Debug, Clone, Copy, PartialEq, Eq, Default)]
pub struct EventChoice {
    /// Number of the outcome; see [`ChoiceResult`].
    pub result: i32,
    /// Probability in percent; zero for the default.
    pub prob: i32,
    /// Values.
    pub value: ActionValue,
    /// Conditions gained.
    pub add_flags: Option<UmaFlags>,
    /// Conditions lost.
    pub remove_flags: Option<UmaFlags>,
}

/// A signed list of conditions, or nothing.
pub open spec fn flags_word(sign: Seq<char>, flags: Option<Seq<char>>) -> Seq<Seq<char>> {
    match flags {
        Some(f) => seq![sign + f],
        None => Seq::empty(),
    }
}

/// The words that describe an outcome, given the texts for the status values and for the
/// conditions.
pub open spec fn choice_words(
    c: &EventChoice,
    status: Seq<char>,
    gained: Option<Seq<char>>,
    lost: Option<Seq<char>>,
) -> Seq<Seq<char>> {
    seq![ChoiceResult::of(c.result as int).label(), value_text(&c.value, status)] + flags_word(
        "+"@,
        gained,
    ) + flags_word("-"@, lost) + if 0 < c.prob < 100 {
        seq!["("@ + dec(c.prob as int) + "%)"@]
    } else {
        Seq::empty()
    }
}

/// A text for conditions, where there are any.
pub open spec fn flags_cell_ok(flags: Option<UmaFlags>, cell: Option<Seq<char>>) -> bool {
    match (flags, cell) {
        (Some(f), Some(t)) => flags_explained(f, t),
        (None, None) => true,
        _ => false,
    }
}

/// The text of an optional string.
pub open spec fn opt_text(s: Option<String>) -> Option<Seq<char>> {
    match s {
        Some(t) => Some(t@),
        None => None,
    }
}

/// Adds a signed list of conditions to the words, if there is one.
fn push_flags_word(words: &mut Vec<String>, sign: &str, flags: &Option<String>)
    ensures
        texts(final(words)@) == texts(old(words)@) + flags_word(sign@, opt_text(*flags)),
{
    let ghost before = texts(words@);
    match flags {
        Some(f) => {
            let mut w: String = sign.to_owned();
            w.append(f.as_str());
            words.push(w);
            assert(texts(words@) =~= before + flags_word(sign@, opt_text(*flags)));
        },
        None => {
            assert(texts(words@) =~= before + flags_word(sign@, opt_text(*flags)));
        },
    }
}

impl EventChoice {
    /// A certain outcome with the given values.
    pub fn from_action_value(value: &ActionValue, result: ChoiceResult) -> (c: EventChoice)
        ensures
            c == (EventChoice {
                result: result.number() as i32,
                prob: 100,
                value: *value,
                add_flags: None,
                remove_flags: None,
            }),
    {
        EventChoice {
            result: result.to_number(),
            prob: 100,
            value: *value,
            add_flags: None,
            remove_flags: None,
        }
    }

    /// The line that describes the outcome, given the texts for the status values and for the
    /// conditions.
    pub fn explain_with(&self, status: &str, gained: &Option<String>, lost: &Option<String>) -> (s: String)
        ensures
            s@ == joined(choice_words(self, status@, opt_text(*gained), opt_text(*lost)), " "@),
    {
        let mut words: Vec<String> = Vec::new();
        words.push(ChoiceResult::from_number(self.result).text());
        words.push(self.value.explain(status));
        assert(texts(words@) =~= seq![
            ChoiceResult::of(self.result as int).label(),
            value_text(&self.value, status@),
        ]);
        push_flags_word(&mut words, "+", gained);
        push_flags_word(&mut words, "-", lost);
        let ghost before = texts(words@);
        if self.prob > 0 && self.prob < 100 {
            let mut w: String = "(".to_owned();
            append_int(&mut w, self.prob as i64);
            w.append("%)");
            words.push(w);
            assert(texts(words@) =~= before + seq!["("@ + dec(self.prob as int) + "%)"@]);
        } else {
            assert(texts(words@) =~= before + Seq::<Seq<char>>::empty());
        }
        assert(texts(words@) == choice_words(self, status@, opt_text(*gained), opt_text(*lost)));
        join(&words, " ")
    }

    /// The line that describes the outcome, given the text for the status values.
    pub fn explain(&self, status: &str) -> (s: String)
        ensures
            exists|gained: Option<Seq<char>>, lost: Option<Seq<char>>| #[trigger]
                flags_cell_ok(self.add_flags, gained) && #[trigger] flags_cell_ok(
                    self.remove_flags,
                    lost,
                ) && s@ == joined(choice_words(self, status@, gained, lost), " "@),
    {
        let gained: Option<String> = match &self.add_flags {
            Some(f) => Some(f.explain()),
            None => None,
        };
        let lost: Option<String> = match &self.remove_flags {
            Some(f) => Some(f.explain()),
            None => None,
        };
        assert(flags_cell_ok(self.add_flags, opt_text(gained)));
        assert(flags_cell_ok(self.remove_flags, opt_text(lost)));
        self.explain_with(status, &gained, &lost)
    }

    /// Maps the status values and skill points, one by one.
    pub fn map_status<F: Fn(i32) -> i32>(&mut self, f: &F)
        requires
            forall|x: i32| #[trigger] call_requires(*f, (x,)),
        ensures
            mapped_choice(*f, *old(self), *final(self)),
    {
        self.value.map_status(f);
    }
}

/// An outcome differs from another by a map of its status values only.
pub open spec fn mapped_choice<F: Fn(i32) -> i32>(f: F, a: EventChoice, b: EventChoice) -> bool {
    &&& forall|i: int|
        0 <= i < 6 ==> call_ensures(f, (a.value.status_pt@[i],), #[trigger] b.value.status_pt@[i])
    &&& b == (EventChoice {
        value: ActionValue { status_pt: b.value.status_pt, ..a.value },
        ..a
    })
}

/// An event.
#[derive(Debug, Default)]
pub struct EventData {
    /// Number of the event.
    pub id: u32,
    /// Name.
    pub name: String,
    /// The person it concerns, if any.
    pub person_index: Option<i32>,
    /// When it takes place.
    pub trigger: TriggerType,
    /// Whether the player picks an option.
    pub player_select: bool,
    /// The options, each with its possible outcomes.
    pub choices: Vec<Vec<EventChoice>>,
}

/// An event as a mathematical value.
#[verifier::ext_equal]
pub struct EventView {
    pub id: u32,
    pub name: Seq<char>,
    pub person_index: Option<i32>,
    pub trigger: TriggerView,
    pub player_select: bool,
    pub choices: Seq<Seq<EventChoice>>,
}

/// The options of an event as mathematical values.
pub open spec fn option_views(choices: Seq<Vec<EventChoice>>) -> Seq<Seq<EventChoice>> {
    Seq::new(choices.len(), |i: int| choices[i]@)
}

impl View for EventData {
    type V = EventView;

    open spec fn view(&self) -> EventView {
        EventView {
            id: self.id,
            name: self.name@,
            person_index: self.person_index,
            trigger: self.trigger@,
            player_select: self.player_select,
            choices: option_views(self.choices@),
        }
    }
}

/// Copies a list of outcomes.
fn copy_outcomes(v: &Vec<EventChoice>) -> (r: Vec<EventChoice>)
    ensures
        r@ == v@,
{
    let mut r: Vec<EventChoice> = Vec::new();
    let mut i: usize = 0;
    while i < v.len()
        invariant
            i <= v@.len(),
            r@ == v@.take(i as int),
        decreases v@.len() - i,
    {
        r.push(v[i]);
        i = i + 1;
        assert(r@ =~= v@.take(i as int));
    }
    assert(v@.take(v@.len() as int) =~= v@);
    r
}

impl Clone for EventData {
    fn clone(&self) -> (e: EventData)
        ensures
            e@ == self@,
    {
        let mut choices: Vec<Vec<EventChoice>> = Vec::new();
        let mut i: usize = 0;
        while i < self.choices.len()
            invariant
                i <= self.choices@.len(),
                option_views(choices@) == option_views(self.choices@).take(i as int),
            decreases self.choices@.len() - i,
        {
            let ghost before = choices@;
            choices.push(copy_outcomes(&self.choices[i]));
            assert(option_views(choices@) =~= option_views(before).push(self.choices@[i as int]@));
            assert(option_views(self.choices@).take(i as int + 1) =~= option_views(
                self.choices@,
            ).take(i as int).push(self.choices@[i as int]@));
            i = i + 1;
        }
        assert(option_views(self.choices@).take(self.choices@.len() as int) =~= option_views(
            self.choices@,
        ));
        EventData {
            id: self.id,
            name: self.name.clone(),
            person_index: self.person_index,
            trigger: self.trigger.clone(),
            player_select: self.player_select,
            choices,
        }
    }
}

/// The events of a list as mathematical values.
pub open spec fn event_views(v: Seq<EventData>) -> Seq<EventView> {
    Seq::new(v.len(), |i: int| v[i]@)
}

/// The lines that describe an event: its head, and one line for each option.
pub open spec fn event_lines(e: EventView, groups: Seq<Seq<char>>) -> Seq<Seq<char>> {
    seq!["["@ + dec(e.id as int) + "] "@ + e.name + " "@ + if e.player_select {
        "[选择]-->  "@
    } else {
        ""@
    }] + Seq::new(
        e.choices.len(),
        |i: int| "  选项"@ + dec(i + 1) + ": "@ + groups[i],
    )
}

/// An event with a single certain outcome.
pub open spec fn single_event(
    id: u32,
    name: Seq<char>,
    person_index: Option<i32>,
    choice: EventChoice,
) -> EventView {
    EventView {
        id,
        name,
        person_index,
        trigger: TriggerView::Code,
        player_select: false,
        choices: seq![seq![choice]],
    }
}

/// Makes an event with a single certain outcome.
fn make_single(id: u32, name: String, person_index: Option<i32>, choice: EventChoice) -> (e: EventData)
    ensures
        e@ == single_event(id, name@, person_index, choice),
{
    let mut group: Vec<EventChoice> = Vec::new();
    group.push(choice);
    assert(group@ =~= seq![choice]);
    let mut choices: Vec<Vec<EventChoice>> = Vec::new();
    choices.push(group);
    assert(option_views(choices@) =~= seq![seq![choice]]);
    EventData {
        id,
        name,
        person_index,
        trigger: TriggerType::Code,
        player_select: false,
        choices,
    }
}

impl EventData {
    /// The lines that describe the event, given a text for each option.
    pub fn explain(&self, groups: &Vec<String>) -> (s: String)
        requires
            groups@.len() == self.choices@.len(),
            self.choices@.len() < usize::MAX,
        ensures
            s@ == joined(event_lines(self@, texts(groups@)), "\n"@),
    {
        let mut first: String = "[".to_owned();
        append_int(&mut first, self.id as i64);
        first.append("] ");
        first.append(self.name.as_str());
        first.append(" ");
        if self.player_select {
            first.append("[选择]-->  ");
        } else {
            first.append("");
        }
        let mut lines: Vec<String> = Vec::new();
        lines.push(first);
        let ghost want = event_lines(self@, texts(groups@));
        assert(texts(lines@) =~= want.take(1));
        let mut i: usize = 0;
        while i < self.choices.len()
            invariant
                i <= self.choices@.len(),
                groups@.len() == self.choices@.len(),
                self.choices@.len() < usize::MAX,
                want == event_lines(self@, texts(groups@)),
                texts(lines@) == want.take(i as int + 1),
            decreases self.choices@.len() - i,
        {
            let ghost before = lines@;
            let mut l: String = "  选项".to_owned();
            crate::text::append_usize(&mut l, i + 1);
            l.append(": ");
            l.append(groups[i].as_str());
            assert(l@ =~= want[i as int + 1]);
            lines.push(l);
            assert(texts(lines@) =~= texts(before).push(want[i as int + 1]));
            assert(want.take(i as int + 2) =~= want.take(i as int + 1).push(want[i as int + 1]));
            i = i + 1;
        }
        assert(want.take(want.len() as int) =~= want);
        join(&lines, "\n")
    }

    /// The first outcome of the first option.
    pub fn default_choice(&self) -> (c: &EventChoice)
        requires
            self.choices@.len() > 0,
            self.choices@[0]@.len() > 0,
        ensures
            *c == self.choices@[0]@[0],
    {
        &self.choices[0][0]
    }

    /// Maps the status values and skill points of every outcome.
    pub fn map_status<F: Fn(i32) -> i32>(&mut self, f: &F)
        requires
            forall|x: i32| #[trigger] call_requires(*f, (x,)),
        ensures
            final(self)@ == (EventView { choices: final(self)@.choices, ..old(self)@ }),
            final(self)@.choices.len() == old(self)@.choices.len(),
            forall|i: int|
                0 <= i < old(self)@.choices.len() ==> (#[trigger] final(self)@.choices[i]).len()
                    == old(self)@.choices[i].len(),
            forall|i: int, j: int|
                0 <= i < old(self)@.choices.len() && 0 <= j < old(self)@.choices[i].len()
                    ==> mapped_choice(
                    *f,
                    old(self)@.choices[i][j],
                    #[trigger] final(self)@.choices[i][j],
                ),
    {
        let mut out: Vec<Vec<EventChoice>> = Vec::new();
        let mut i: usize = 0;
        while i < self.choices.len()
            invariant
                i <= self.choices@.len(),
                out@.len() == i,
                *self == *old(self),
                forall|x: i32| #[trigger] call_requires(*f, (x,)),
                forall|k: int| 0 <= k < i ==> (#[trigger] out@[k])@.len() == self.choices@[k]@.len(),
                forall|k: int, j: int|
                    0 <= k < i && 0 <= j < self.choices@[k]@.len() ==> mapped_choice(
                        *f,
                        self.choices@[k]@[j],
                        #[trigger] out@[k]@[j],
                    ),
            decreases self.choices@.len() - i,
        {
            let group: Vec<EventChoice> = map_group(&self.choices[i], f);
            out.push(group);
            i = i + 1;
        }
        self.choices = out;
        assert forall|k: int| 0 <= k < old(self)@.choices.len() implies (
        #[trigger] self@.choices[k]).len() == old(self)@.choices[k].len() by {
            assert(self.choices@[k]@.len() == old(self).choices@[k]@.len());
        }
        assert forall|k: int, j: int|
            0 <= k < old(self)@.choices.len() && 0 <= j < old(self)@.choices[k].len() implies mapped_choice(
            *f,
            old(self)@.choices[k][j],
            #[trigger] self@.choices[k][j],
        ) by {
            assert(self@.choices[k][j] == self.choices@[k]@[j]);
        }
    }

    /// The event of a hint on an attribute.
    ///
    /// Refused for a training outside the five.
    pub fn hint_attr_event(cons: &GameConstants, train: usize, person_index: usize) -> (r: Result<
        EventData,
        SimError,
    >)
        requires
            train < 5 ==> train < cons.train_names@.len(),
        ensures
            match r {
                Ok(e) => train < 5 && exists|c: EventChoice| #[trigger]
                    is_hint_choice(c, cons.hint_event_value@[train as int], 0) && e@ == single_event(
                        101,
                        "Hint - "@ + cons.train_names@[train as int]@ + "属性"@,
                        Some(person_index as i32),
                        c,
                    ),
                Err(e) => train >= 5 && e == (SimError::TrainOutOfRange { train }),
            },
    {
        if train >= 5 {
            return Err(SimError::TrainOutOfRange { train });
        }
        let value: ActionValue = ActionValue {
            status_pt: cons.hint_event_value[train],
            vital: 0,
            max_vital: 0,
            motivation: 0,
            hint_level: 0,
            friendship: 5,
        };
        let choice: EventChoice = EventChoice::from_action_value(&value, ChoiceResult::Normal);
        assert(is_hint_choice(choice, cons.hint_event_value@[train as int], 0));
        let mut name: String = "Hint - ".to_owned();
        name.append(cons.train_names[train].as_str());
        name.append("属性");
        Ok(make_single(101, name, Some(person_index as i32), choice))
    }

    /// The event of a hint on a skill.
    pub fn hint_skill_event(hint_level: i32, person_index: usize) -> (e: EventData)
        ensures
            exists|c: EventChoice, zero: [i32; 6]| #[trigger]
                is_hint_choice(c, zero, hint_level) && zero@ == seq![0i32, 0, 0, 0, 0, 0] && e@
                    == single_event(101, "Hint - 技能"@, Some(person_index as i32), c),
    {
        let zero: [i32; 6] = [0, 0, 0, 0, 0, 0];
        let value: ActionValue = ActionValue {
            status_pt: zero,
            vital: 0,
            max_vital: 0,
            motivation: 0,
            hint_level,
            friendship: 5,
        };
        let choice: EventChoice = EventChoice::from_action_value(&value, ChoiceResult::Normal);
        assert(is_hint_choice(choice, zero, hint_level));
        make_single(101, "Hint - 技能".to_owned(), Some(person_index as i32), choice)
    }

    /// The event of an extra training: the given event with five points of one attribute.
    pub fn extra_training_event(template: &EventData, train: usize) -> (e: EventData)
        requires
            train < 6,
            template.choices@.len() > 0,
            template.choices@[0]@.len() > 0,
        ensures
            e@.choices.len() == template@.choices.len(),
            e@ == (EventView { choices: e@.choices, ..template@ }),
            forall|i: int| 0 < i < e@.choices.len() ==> #[trigger] e@.choices[i]
                == template@.choices[i],
            e@.choices[0] == template@.choices[0].update(0, e@.choices[0][0]),
            ({
                let a = template@.choices[0][0];
                let b = e@.choices[0][0];
                &&& b.value.status_pt@ == a.value.status_pt@.update(train as int, 5)
                &&& b == (EventChoice {
                    value: ActionValue { status_pt: b.value.status_pt, ..a.value },
                    ..a
                })
            }),
    {
        let mut e: EventData = template.clone();
        assert(e@.choices.len() == e.choices@.len() && template@.choices.len()
            == template.choices@.len());
        assert(e@.choices[0] == e.choices@[0]@ && template@.choices[0] == template.choices@[0]@);
        let mut group: Vec<EventChoice> = copy_outcomes(&e.choices[0]);
        let mut choice: EventChoice = group[0];
        choice.value.status_pt[train] = 5;
        group.set(0, choice);
        e.choices.set(0, group);
        assert(e@.choices =~= template@.choices.update(0, group@));
        e
    }

    /// An event with a single successful outcome.
    pub fn from_action_value(id: u32, name: &str, value: &ActionValue) -> (e: EventData)
        ensures
            e@ == single_event(
                id,
                name@,
                None,
                (EventChoice {
                    result: 1,
                    prob: 100,
                    value: *value,
                    add_flags: None,
                    remove_flags: None,
                }),
            ),
    {
        let choice: EventChoice = EventChoice::from_action_value(value, ChoiceResult::Success);
        make_single(id, name.to_owned(), None, choice)
    }
}

/// The outcome of a hint: five points of bond, and the given values and hint level.
pub open spec fn is_hint_choice(c: EventChoice, status: [i32; 6], hint_level: i32) -> bool {
    c == (EventChoice {
        result: 0,
        prob: 100,
        value: ActionValue {
            status_pt: status,
            vital: 0,
            max_vital: 0,
            motivation: 0,
            hint_level,
            friendship: 5,
        },
        add_flags: None,
        remove_flags: None,
    })
}

/// Maps the status values of every outcome of an option.
fn map_group<F: Fn(i32) -> i32>(group: &Vec<EventChoice>, f: &F) -> (out: Vec<EventChoice>)
    requires
        forall|x: i32| #[trigger] call_requires(*f, (x,)),
    ensures
        out@.len() == group@.len(),
        forall|j: int|
            0 <= j < group@.len() ==> mapped_choice(*f, group@[j], #[trigger] out@[j]),
{
    let mut out: Vec<EventChoice> = Vec::new();
    let mut j: usize = 0;
    while j < group.len()
        invariant
            j <= group@.len(),
            out@.len() == j,
            forall|x: i32| #[trigger] call_requires(*f, (x,)),
            forall|k: int| 0 <= k < j ==> mapped_choice(*f, group@[k], #[trigger] out@[k]),
        decreases group@.len() - j,
    {
        let mut c: EventChoice = group[j];
        c.map_status(f);
        out.push(c);
        j = j + 1;
    }
    out
}

/// An event that is looked up by name.
#[derive(Debug, Clone, Default)]
pub struct NamedEvent {
    pub key: String,
    pub event: EventData,
}

/// The first event of a name.
pub open spec fn named(list: Seq<NamedEvent>, key: Seq<char>) -> Option<EventView>
    decreases list.len(),
{
    if list.len() == 0 {
        None
    } else if list[0].key@ == key {
        Some(list[0].event@)
    } else {
        named(list.drop_first(), key)
    }
}

/// Looks an event up by name.
pub fn find_named(list: &Vec<NamedEvent>, key: &str) -> (r: Option<EventData>)
    ensures
        r is Some <==> named(list@, key@) is Some,
        r matches Some(e) ==> Some(e@) == named(list@, key@),
{
    let wanted: String = key.to_owned();
    let mut i: usize = 0;
    assert(list@.skip(0) =~= list@);
    while i < list.len()
        invariant
            i <= list@.len(),
            wanted@ == key@,
            named(list@, key@) == named(list@.skip(i as int), key@),
        decreases list@.len() - i,
    {
        assert(list@.skip(i as int)[0] == list@[i as int]);
        if list[i].key == wanted {
            return Some(list[i].event.clone());
        }
        assert(list@.skip(i as int).drop_first() =~= list@.skip(i as int + 1));
        i = i + 1;
    }
    assert(list@.skip(list@.len() as int) =~= Seq::<NamedEvent>::empty());
    None
}

/// The event tables.
#[derive(Debug, Clone, Default)]
pub struct EventCollection {
    /// Events of the story.
    pub story_events: Vec<EventData>,
    /// Events of the character.
    pub uma_events: Vec<EventData>,
    /// Chains of the support cards.
    pub card_events: Vec<EventData>,
    /// Events of friends, by name.
    pub friend_events: Vec<NamedEvent>,
    /// Events of the system, by name.
    pub system_events: Vec<NamedEvent>,
}

/// Chances of what events bring, in parts of ten thousand.
#[derive(Debug, Clone, Copy, Default)]
pub struct EventRates {
    /// Outings with the friend open while the bond is below sixty.
    pub friend_unlock_low: u32,
    /// Outings with the friend open from a bond of sixty on.
    pub friend_unlock_high: u32,
    /// The discount on skills is learnt.
    pub qiezhe_normal: u32,
    /// The refreshed mind ends, by the turns for which it has lasted; the last entry holds from
    /// then on.
    pub refresh_end: [u32; 7],
}

/// An event of the story takes place on a turn: random ones on every turn, fixed ones on theirs.
pub open spec fn on_turn(e: EventView, turn: i32) -> bool {
    match e.trigger {
        TriggerView::Random { max_time } => true,
        TriggerView::Code => false,
        TriggerView::Fixed { turns } => turns.contains(turn),
    }
}

/// The events of a list that take place on a turn.
pub open spec fn turn_events(list: Seq<EventView>, turn: i32) -> Seq<EventView> {
    list.filter(|e: EventView| on_turn(e, turn))
}

/// The events of a list that take place on a turn, in their order.
pub fn list_turn_events(events: &Vec<EventData>, turn: i32) -> (out: Vec<EventData>)
    ensures
        event_views(out@) == turn_events(event_views(events@), turn),
{
    let mut out: Vec<EventData> = Vec::new();
    let mut i: usize = 0;
    let ghost all = event_views(events@);
    let ghost pred = |e: EventView| on_turn(e, turn);
    proof {
        lemma_filter_start(all, pred);
    }
    while i < events.len()
        invariant
            i <= events@.len(),
            all == event_views(events@),
            pred == (|e: EventView| on_turn(e, turn)),
            event_views(out@) == all.take(i as int).filter(pred),
        decreases events@.len() - i,
    {
        let ghost before = out@;
        let hit: bool = match &events[i].trigger {
            TriggerType::Random { max_time } => true,
            TriggerType::Code => false,
            TriggerType::Fixed { turns } => holds(turns, turn),
        };
        assert(hit == on_turn(all[i as int], turn));
        if hit {
            out.push(events[i].clone());
        }
        proof {
            lemma_filter_step(all, pred, i as int);
            if hit {
                assert(event_views(out@) =~= event_views(before).push(all[i as int]));
            }
        }
        i = i + 1;
    }
    assert(all.take(all.len() as int) =~= all);
    out
}

/// The events of a turn are those of the list that are bound to the turn or may come on any turn;
/// events that only the rules call are never among them.
pub proof fn law_events_come_on_their_turns(list: Seq<EventView>, turn: i32, e: EventView)
    ensures
        turn_events(list, turn).contains(e) <==> list.contains(e) && match e.trigger {
            TriggerView::Fixed { turns } => turns.contains(turn),
            TriggerView::Random { .. } => true,
            TriggerView::Code => false,
        },
    decreases list.len(),
{
    reveal(Seq::filter);
    let f = |e: EventView| on_turn(e, turn);
    if list.len() > 0 {
        let rest = list.drop_last();
        law_events_come_on_their_turns(rest, turn, e);
        assert(list =~= rest.push(list.last()));
        lemma_contains_push(rest, list.last(), e);
        lemma_contains_push(rest.filter(f), list.last(), e);
    }
}

proof fn lemma_contains_push(s: Seq<EventView>, x: EventView, e: EventView)
    ensures
        s.push(x).contains(e) <==> s.contains(e) || e == x,
{
    if s.contains(e) {
        let k = choose|k: int| 0 <= k < s.len() && s[k] == e;
        assert(s.push(x)[k] == e);
    }
    assert(s.push(x)[s.len() as int] == x);
    if s.push(x).contains(e) && e != x {
        let k = choose|k: int| 0 <= k < s.push(x).len() && s.push(x)[k] == e;
        assert(s[k] == e);
    }
}

/// An event is found under its name where the list has the name, and it is the first under it.
pub proof fn law_event_found_by_name(list: Seq<NamedEvent>, key: Seq<char>)
    ensures
        named(list, key) is None <==> forall|i: int|
            0 <= i < list.len() ==> (#[trigger] list[i]).key@ != key,
        named(list, key) matches Some(e) ==> exists|i: int|
            0 <= i < list.len() && (#[trigger] list[i]).key@ == key && list[i].event@ == e
                && forall|j: int| 0 <= j < i ==> (#[trigger] list[j]).key@ != key,
    decreases list.len(),
{
    if list.len() > 0 {
        if list[0].key@ == key {
            assert(list[0].event@ == named(list, key)->0);
        } else {
            let rest = list.drop_first();
            law_event_found_by_name(rest, key);
            if let Some(e) = named(rest, key) {
                let i = choose|i: int|
                    0 <= i < rest.len() && (#[trigger] rest[i]).key@ == key && rest[i].event@ == e
                        && forall|j: int| 0 <= j < i ==> (#[trigger] rest[j]).key@ != key;
                assert(list[i + 1] == rest[i]);
                assert forall|j: int| 0 <= j < i + 1 implies (#[trigger] list[j]).key@ != key by {
                    if j > 0 {
                        assert(rest[j - 1] == list[j]);
                    }
                }
            } else {
                assert forall|j: int| 0 <= j < list.len() implies (#[trigger] list[j]).key@ != key by {
                    if j > 0 {
                        assert(rest[j - 1] == list[j]);
                    }
                }
            }
        }
    }
}

/// The numbers of outcomes: zero for an ordinary one, one and two for success and great success, three
/// and four for failure and great failure; any other number is read as ordinary.
pub proof fn law_outcome_numbers(n: int)
    ensures
        ChoiceResult::of(0) == ChoiceResult::Normal,
        ChoiceResult::of(1) == ChoiceResult::Success,
        ChoiceResult::of(2) == ChoiceResult::BigSuccess,
        ChoiceResult::of(3) == ChoiceResult::Fail,
        ChoiceResult::of(4) == ChoiceResult::BigFail,
        n < 0 || n > 4 ==> ChoiceResult::of(n) == ChoiceResult::Normal,
        0 <= n <= 4 ==> ChoiceResult::of(n).number() == n,
{
}

/// A hint raises the bond of its person by five and comes for certain; a hint on a skill gives levels
/// and no status value.
pub proof fn law_hints_raise_the_bond(c: EventChoice, status: [i32; 6], hint_level: i32)
    requires
        is_hint_choice(c, status, hint_level),
    ensures
        c.value.friendship == 5,
        c.value.hint_level == hint_level,
        c.value.status_pt == status,
        c.prob == 100,
        c.value.vital == 0 && c.value.motivation == 0 && c.value.max_vital == 0,
        c.add_flags is None && c.remove_flags is None,
{
}

/// An event that the rules make has one option with one outcome, asks nobody, and comes only when
/// called.
pub proof fn law_made_events_have_one_outcome(
    id: u32,
    name: Seq<char>,
    person_index: Option<i32>,
    choice: EventChoice,
    turn: i32,
)
    ensures
        ({
            let e = single_event(id, name, person_index, choice);
            &&& e.id == id
            &&& e.person_index == person_index
            &&& e.choices.len() == 1 && e.choices[0].len() == 1 && e.choices[0][0] == choice
            &&& !e.player_select
            &&& !on_turn(e, turn)
        }),
{
}

} // verus!
