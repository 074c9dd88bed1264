use vstd::prelude::*;

verus! {

/// Every way in which an operation of the library can be refused.
#[derive(Debug, Clone, Copy, PartialEq, Eq, Structural)]
pub enum SimError {
    /// The year index has no entry in the scenario tables.
    YearOutOfRange { year_idx: usize },
    /// The turn is not one on which the asked-for yearly step takes place.
    TurnOutOfRange { turn: i32 },
    /// No region of that number exists.
    RegionOutOfRange { region_id: usize },
    /// A recipe does not cost the fixed number of feeling points.
    RecipeCost { recipe_idx: usize },
    /// More than two hidden flavours were asked for.
    SpecialTotal { total: i32 },
    /// A replacement count is negative.
    SpecialNegative { index: usize, value: i32 },
    /// A replacement count exceeds what the recipe asks for.
    SpecialOverRecipe { index: usize, value: i32, cost: i32 },
    /// Fewer hidden flavours are in stock than are needed.
    SpecialShort { need: i32, have: i32 },
    /// Fewer feeling points of one kind are in stock than are needed.
    FeelingShort { index: usize, need: i32, have: i32 },
    /// The operation belongs to another stage of the turn.
    WrongStage,
    /// The replacement counts are not among the legal ones of that bowl.
    IllegalTargets { ramen_idx: usize },
    /// No bowl has been picked yet.
    NoPendingRamen,
    /// The fixed region table is missing or empty.
    NoFixedRegions,
    /// A candidate list is empty.
    NoCandidates,
    /// An answer points outside the candidate list.
    ChoiceOutOfRange { selection: usize, len: usize },
    /// No answer picks the option that is asked for.
    NoSuchOption,
    /// A training position outside the five.
    TrainOutOfRange { train: usize },
    /// A weight table whose total is not positive.
    EmptyWeights,
    /// No character of that number is known.
    UnknownUma { uma_id: u32 },
    /// No support card of that number is known.
    UnknownCard { card_id: u32 },
    /// No such limit break exists.
    RankOutOfRange { idrank: u32 },
    /// A named event is missing from the tables.
    MissingEvent,
    /// A value cannot be mapped to the policy or sample encoding.
    Encoding,
    /// A training sample does not meet its format.
    BadSample(SampleFault),
}

/// What is wrong with a training sample.
#[derive(Debug, Clone, Copy, PartialEq, Eq, Structural)]
pub enum SampleFault {
    /// The feature row has the wrong length.
    FeatureLen { got: usize, want: usize },
    /// A feature is not a finite number.
    FeatureNotFinite { index: usize },
    /// No rollout has that number.
    MaskIndex { index: usize, len: usize },
    /// A validity mask has the wrong number of words.
    MaskWords { got: usize, want: usize },
    /// A validity mask sets bits beyond its length.
    MaskTail,
    /// A candidate holds no rollout at all.
    NoRollouts,
    /// A rollout score is not a finite number.
    ScoreNotFinite { index: usize },
    /// A candidate has more or fewer scores than its mask has bits.
    ScoreCount { got: usize, want: usize },
    /// The number of valid rollouts is not what the mask says.
    ValidCount { counted: u32, want: usize },
    /// A candidate's slot lies outside the policy head.
    SlotOutOfRange { slot: usize },
    /// There is no candidate.
    NoCandidate,
    /// A candidate has more or fewer rollouts than the first.
    RolloutCount { index: usize, got: usize, want: usize },
    /// The search did not record its rollouts in order.
    NotRecorded,
    /// The recorded rollouts are not those of the candidates.
    ListLen { got: usize, want: usize },
    /// A sample was written in another format.
    Version { index: usize, version: u32 },
}

} // verus!
