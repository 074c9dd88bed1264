use vstd::prelude::*;
use super::policy_schema::REGION_NUM;
use super::{FeelingType, RamenState};
use crate::error::SimError;
use crate::gamedata::ramen::RamenScenarioData;

verus! {

/// Most feeling points that can be in stock.
pub const FEELING_LIMIT: i32 = 10;

/// Level at which a gauge turns into a feeling point.
pub const GAUGE_LIMIT: i32 = 7;

/// Feeling points that a bowl costs.
pub const RAMEN_COST: i32 = 5;

/// Points that the three gauges gain together every turn.
pub const GAUGE_BASE_SUM: i32 = 10;

// ========== Stock and gauges ==========

/// Gauges, stock and their counters, as mathematical values.
pub struct Kitchen {
    pub slot: Seq<int>,
    pub stock: Seq<int>,
    pub queue: Seq<FeelingType>,
    pub year: int,
    pub gained: Seq<int>,
    pub dropped: Seq<int>,
}

/// The integers of an array of three.
pub open spec fn ints(a: [i32; 3]) -> Seq<int> {
    seq![a@[0] as int, a@[1] as int, a@[2] as int]
}

/// Sum of three numbers kept by kind.
pub open spec fn sum3(s: Seq<int>) -> int {
    s[0] + s[1] + s[2]
}

/// How many points of one kind the queue holds.
pub open spec fn count_of(q: Seq<FeelingType>, k: int) -> int
    decreases q.len(),
{
    if q.len() == 0 {
        0
    } else {
        count_of(q.drop_first(), k) + if q[0].idx() == k {
            1int
        } else {
            0
        }
    }
}

/// A yearly counter after one more event.
pub open spec fn bump(counter: Seq<int>, year: int) -> Seq<int> {
    if 0 <= year < counter.len() {
        counter.update(year, counter[year] + 1)
    } else {
        counter
    }
}

impl RamenState {
    /// Gauges, stock and counters of the state.
    pub open spec fn kitchen(&self) -> Kitchen {
        Kitchen {
            slot: ints(self.feeling_slot),
            stock: ints(self.feeling_stock),
            queue: self.feeling_queue@,
            year: self.obs_year as int,
            gained: ints(self.yearly_gauge_gain),
            dropped: ints(self.yearly_gauge_overflow),
        }
    }

    /// The state `after` differs from this one in gauges, stock and their counters at most.
    pub open spec fn kitchen_step(&self, after: RamenState) -> bool {
        after == (RamenState {
            feeling_slot: after.feeling_slot,
            feeling_stock: after.feeling_stock,
            feeling_queue: after.feeling_queue,
            yearly_gauge_gain: after.yearly_gauge_gain,
            yearly_gauge_overflow: after.yearly_gauge_overflow,
            ..*self
        })
    }
}

impl Kitchen {
    /// Everything is kept for three kinds and three years.
    pub open spec fn shaped(self) -> bool {
        self.slot.len() == 3 && self.stock.len() == 3 && self.gained.len() == 3
            && self.dropped.len() == 3
    }

    /// The queue lists exactly the points in stock.
    pub open spec fn consistent(self) -> bool {
        &&& self.stock.len() == 3
        &&& forall|k: int| 0 <= k < 3 ==> #[trigger] self.stock[k] == count_of(self.queue, k)
    }

    /// The counter of dropped points can take `n` more points in stock.
    pub open spec fn drops_fit(self, n: int) -> bool {
        0 <= self.year < 3 && sum3(self.stock) + n > FEELING_LIMIT ==> self.dropped[self.year]
            + sum3(self.stock) + n - FEELING_LIMIT <= i32::MAX
    }

    /// `n` more points of one kind can be gained one by one, and no number leaves the range of its
    /// type. While the queue lists what is in stock, the limit keeps the stock small.
    pub open spec fn takes(self, ft: FeelingType, n: int) -> bool {
        n > 0 ==> {
            &&& self.stock[ft.idx()] + n <= i32::MAX || (self.consistent() && self.queue.len()
                < i32::MAX)
            &&& self.drops_fit(n)
        }
    }

    /// Gauges can give `add[k]` points of each kind `k`, and no number leaves the range of its
    /// type.
    pub open spec fn has_room(self, add: Seq<int>) -> bool {
        sum3(add) > 0 ==> {
            &&& self.stock[0] + add[0] <= i32::MAX
            &&& self.stock[1] + add[1] <= i32::MAX
            &&& self.stock[2] + add[2] <= i32::MAX
            &&& self.drops_fit(sum3(add))
            &&& 0 <= self.year < 3 ==> self.gained[self.year] + sum3(add) <= i32::MAX
        }
    }

    /// Drops the earliest points until the stock is within its limit.
    pub open spec fn trimmed(self) -> Kitchen
        decreases self.queue.len(),
    {
        if sum3(self.stock) > FEELING_LIMIT && self.queue.len() > 0 {
            let k = self.queue[0].idx();
            if self.stock[k] > 0 {
                (Kitchen {
                    stock: self.stock.update(k, self.stock[k] - 1),
                    queue: self.queue.drop_first(),
                    dropped: bump(self.dropped, self.year),
                    ..self
                }).trimmed()
            } else {
                (Kitchen { queue: self.queue.drop_first(), ..self }).trimmed()
            }
        } else {
            self
        }
    }

    /// One more point in stock, before the limit is applied.
    pub open spec fn pushed(self, ft: FeelingType) -> Kitchen {
        Kitchen {
            stock: self.stock.update(ft.idx(), self.stock[ft.idx()] + 1),
            queue: self.queue.push(ft),
            ..self
        }
    }

    /// After gaining `n` points of one kind, one by one.
    pub open spec fn gain(self, ft: FeelingType, n: int) -> Kitchen
        decreases n,
    {
        if n <= 0 {
            self
        } else {
            self.gain(ft, n - 1).pushed(ft).trimmed()
        }
    }

    /// After filling one gauge: a full gauge is emptied and gives one point.
    pub open spec fn gauge(self, ft: FeelingType, amount: int) -> Kitchen {
        let level = self.slot[ft.idx()] + amount;
        if level >= GAUGE_LIMIT {
            let k = (Kitchen { slot: self.slot.update(ft.idx(), 0), ..self }).gain(ft, 1);
            Kitchen { gained: bump(k.gained, k.year), ..k }
        } else {
            Kitchen { slot: self.slot.update(ft.idx(), level), ..self }
        }
    }

    /// Whether filling one gauge by `amount` makes it full.
    pub open spec fn gauge_full(self, ft: FeelingType, amount: int) -> bool {
        self.slot[ft.idx()] + amount >= GAUGE_LIMIT
    }

    /// After the base points of a turn have been added to the three gauges.
    pub open spec fn base_filled(self, base: Seq<int>) -> Kitchen {
        self.gauge(FeelingType::A, base[0]).gauge(FeelingType::B, base[1]).gauge(
            FeelingType::C,
            base[2],
        )
    }

    /// After a friendship training has raised every gauge by two, up to the limit.
    pub open spec fn friendship_filled(self) -> Kitchen {
        Kitchen {
            slot: Seq::new(
                3,
                |i: int|
                    if self.slot[i] + 2 <= GAUGE_LIMIT {
                        self.slot[i] + 2
                    } else {
                        GAUGE_LIMIT as int
                    },
            ),
            ..self
        }
    }

    /// After one gauge has been topped up to its limit; a gauge at the limit stays.
    pub open spec fn maxed(self, ft: FeelingType) -> Kitchen {
        if self.slot[ft.idx()] < GAUGE_LIMIT {
            self.gauge(ft, GAUGE_LIMIT - self.slot[ft.idx()])
        } else {
            self
        }
    }

    /// After all three gauges have been topped up.
    pub open spec fn all_maxed(self) -> Kitchen {
        self.maxed(FeelingType::A).maxed(FeelingType::B).maxed(FeelingType::C)
    }

    /// After a training: base points, the bonus of the shown kind, and two more of every kind for
    /// a friendship training; in the summer camp every gauge topped up.
    pub open spec fn after_train(
        self,
        base: Seq<int>,
        shown: FeelingType,
        bonus: int,
        shining: bool,
        camp: bool,
    ) -> Kitchen {
        let filled = self.base_filled(base).gauge(shown, bonus);
        if camp {
            self.all_maxed()
        } else if shining {
            filled.friendship_filled()
        } else {
            filled
        }
    }

    /// After any other action: base points; in the summer camp every gauge topped up.
    pub open spec fn after_non_train(self, base: Seq<int>, camp: bool) -> Kitchen {
        if camp {
            self.all_maxed()
        } else {
            self.base_filled(base)
        }
    }
}

proof fn lemma_trimmed_sums(k: Kitchen)
    requires
        k.shaped(),
    ensures
        k.trimmed().shaped(),
        k.trimmed().slot == k.slot,
        k.trimmed().year == k.year,
        k.trimmed().gained == k.gained,
        sum3(k.trimmed().stock) <= sum3(k.stock),
        k.trimmed().stock[0] <= k.stock[0],
        k.trimmed().stock[1] <= k.stock[1],
        k.trimmed().stock[2] <= k.stock[2],
        0 <= k.year < 3 ==> k.trimmed().dropped[k.year] + sum3(k.trimmed().stock)
            == k.dropped[k.year] + sum3(k.stock),
    decreases k.queue.len(),
{
    if sum3(k.stock) > FEELING_LIMIT && k.queue.len() > 0 {
        let i = k.queue[0].idx();
        if k.stock[i] > 0 {
            let k2 = Kitchen {
                stock: k.stock.update(i, k.stock[i] - 1),
                queue: k.queue.drop_first(),
                dropped: bump(k.dropped, k.year),
                ..k
            };
            lemma_trimmed_sums(k2);
        } else {
            lemma_trimmed_sums(Kitchen { queue: k.queue.drop_first(), ..k });
        }
    }
}

proof fn lemma_gain_sums(k: Kitchen, ft: FeelingType, n: int)
    requires
        k.shaped(),
        n >= 0,
    ensures
        k.gain(ft, n).shaped(),
        k.gain(ft, n).slot == k.slot,
        k.gain(ft, n).year == k.year,
        k.gain(ft, n).gained == k.gained,
        sum3(k.gain(ft, n).stock) <= sum3(k.stock) + n,
        k.gain(ft, n).stock[ft.idx()] <= k.stock[ft.idx()] + n,
        forall|i: int|
            0 <= i < 3 && i != ft.idx() ==> #[trigger] k.gain(ft, n).stock[i] <= k.stock[i],
        0 <= k.year < 3 ==> k.gain(ft, n).dropped[k.year] + sum3(k.gain(ft, n).stock)
            == k.dropped[k.year] + sum3(k.stock) + n,
    decreases n,
{
    if n > 0 {
        lemma_gain_sums(k, ft, n - 1);
        let g = k.gain(ft, n - 1);
        lemma_trimmed_sums(g.pushed(ft));
    }
}

/// While the queue lists what is in stock, gaining keeps it so and keeps the stock in its limit.
proof fn lemma_gain_consistent(k: Kitchen, ft: FeelingType, n: int)
    requires
        k.consistent(),
        n >= 0,
    ensures
        k.gain(ft, n).consistent(),
        n > 0 ==> sum3(k.gain(ft, n).stock) <= FEELING_LIMIT,
    decreases n,
{
    if n > 0 {
        lemma_gain_consistent(k, ft, n - 1);
        let g = k.gain(ft, n - 1);
        let p = g.pushed(ft);
        assert forall|j: int| 0 <= j < 3 implies #[trigger] p.stock[j] == count_of(p.queue, j) by {
            lemma_count_push(g.queue, ft, j);
        }
        law_trim_drops_oldest(p);
    }
}

/// Where a number of points can be gained, so can the next one on the way.
proof fn lemma_takes_next(k: Kitchen, ft: FeelingType, n: int, done: int)
    requires
        k.shaped(),
        k.takes(ft, n),
        0 <= done < n,
    ensures
        k.gain(ft, done).shaped(),
        k.gain(ft, done).stock[ft.idx()] < i32::MAX,
        k.gain(ft, done).pushed(ft).drops_fit(0),
{
    let g = k.gain(ft, done);
    lemma_gain_sums(k, ft, done);
    if k.consistent() {
        lemma_gain_consistent(k, ft, done);
        lemma_count_nonneg(g.queue, 0);
        lemma_count_nonneg(g.queue, 1);
        lemma_count_nonneg(g.queue, 2);
        assert(g.stock[0] == count_of(g.queue, 0));
        assert(g.stock[1] == count_of(g.queue, 1));
        assert(g.stock[2] == count_of(g.queue, 2));
    }
}

/// Adds feeling points of one kind to the stock, one by one.
///
/// Whenever the stock exceeds its limit, the points gained first are dropped. While the queue lists
/// what is in stock, it keeps doing so, and of the old queue and the new points the ten newest
/// remain, in their order.
pub fn add_feeling(state: &mut RamenState, feeling_type: FeelingType, count: i32)
    requires
        old(state).kitchen().takes(feeling_type, count as int),
    ensures
        final(state).kitchen() == old(state).kitchen().gain(feeling_type, count as int),
        old(state).kitchen_step(*final(state)),
        final(state).feeling_slot == old(state).feeling_slot,
        final(state).special_feeling == old(state).special_feeling,
        old(state).kitchen().consistent() && old(state).feeling_queue@.len() <= FEELING_LIMIT && count
            >= 0 ==> {
            &&& final(state).kitchen().consistent()
            &&& final(state).feeling_queue@ == newest(
                old(state).feeling_queue@ + Seq::new(count as nat, |i: int| feeling_type),
                FEELING_LIMIT as int,
            )
            &&& final(state).feeling_queue@.len() <= FEELING_LIMIT
        },
{
    let idx: usize = feeling_type.index();
    let ghost k0 = state.kitchen();
    let mut done: i32 = 0;
    while done < count
        invariant
            idx == feeling_type.idx(),
            idx < 3,
            0 <= done,
            done <= count || done == 0,
            k0 == old(state).kitchen(),
            k0.shaped(),
            k0.takes(feeling_type, count as int),
            state.kitchen() == k0.gain(feeling_type, done as int),
            old(state).kitchen_step(*state),
            state.feeling_slot == old(state).feeling_slot,
        decreases count - done,
    {
        let ghost start = state.kitchen();
        proof {
            lemma_takes_next(k0, feeling_type, count as int, done as int);
        }
        assert(state.feeling_stock@[idx as int] == start.stock[idx as int]);
        state.feeling_stock[idx] = state.feeling_stock[idx] + 1;
        state.feeling_queue.push(feeling_type);
        assert(state.kitchen().stock =~= start.pushed(feeling_type).stock);
        assert(state.kitchen() == start.pushed(feeling_type));
        while state.feeling_stock[0] as i64 + state.feeling_stock[1] as i64
            + state.feeling_stock[2] as i64 > FEELING_LIMIT as i64 && state.feeling_queue.len() > 0
            invariant
                state.kitchen().trimmed() == start.pushed(feeling_type).trimmed(),
                state.kitchen().drops_fit(0),
                old(state).kitchen_step(*state),
                state.feeling_slot == old(state).feeling_slot,
            decreases state.feeling_queue.len(),
        {
            let ghost before = state.kitchen();
            let oldest: FeelingType = state.feeling_queue[0];
            let k: usize = oldest.index();
            if state.feeling_stock[k] > 0 {
                state.feeling_stock[k] = state.feeling_stock[k] - 1;
                if state.obs_year < 3 {
                    let year: usize = state.obs_year;
                    state.yearly_gauge_overflow[year] = state.yearly_gauge_overflow[year] + 1;
                }
                assert(ints(state.feeling_stock) =~= before.stock.update(
                    k as int,
                    before.stock[k as int] - 1,
                ));
                assert(ints(state.yearly_gauge_overflow) =~= bump(before.dropped, before.year));
            }
            let _ = state.feeling_queue.remove(0);
            assert(state.feeling_queue@ =~= before.queue.drop_first());
        }
        done = done + 1;
    }
    proof {
        if k0.consistent() && k0.queue.len() <= FEELING_LIMIT && count >= 0 {
            law_gain_keeps_newest(k0, feeling_type, count as int);
        }
    }
}

/// A gauge can be filled: the point that it may give can be gained.
pub open spec fn gauge_ready(k: Kitchen, ft: FeelingType, amount: int) -> bool {
    k.gauge_full(ft, amount) ==> k.takes(ft, 1) && (0 <= k.year < 3 ==> k.gained[k.year] < i32::MAX)
}

/// Adds to one gauge; a gauge that reaches its limit is emptied and gives one feeling point.
///
/// What exceeds the limit is lost. Returns the number of points gained.
pub fn add_gauge(state: &mut RamenState, feeling_type: FeelingType, amount: i32) -> (gained: i32)
    requires
        i32::MIN <= old(state).kitchen().slot[feeling_type.idx()] + amount <= i32::MAX,
        gauge_ready(old(state).kitchen(), feeling_type, amount as int),
    ensures
        final(state).kitchen() == old(state).kitchen().gauge(feeling_type, amount as int),
        old(state).kitchen_step(*final(state)),
        gained == if old(state).kitchen().gauge_full(feeling_type, amount as int) {
            1int
        } else {
            0
        },
{
    let idx: usize = feeling_type.index();
    let ghost before = state.kitchen();
    state.feeling_slot[idx] = state.feeling_slot[idx] + amount;
    if state.feeling_slot[idx] >= GAUGE_LIMIT {
        state.feeling_slot[idx] = 0;
        assert(ints(state.feeling_slot) =~= before.slot.update(idx as int, 0));
        let ghost emptied = state.kitchen();
        proof {
            lemma_gain_sums(emptied, feeling_type, 1);
        }
        add_feeling(state, feeling_type, 1);
        let ghost fed = state.kitchen();
        if state.obs_year < 3 {
            let year: usize = state.obs_year;
            assert(fed.gained[year as int] == before.gained[year as int]);
            state.yearly_gauge_gain[year] = state.yearly_gauge_gain[year] + 1;
        }
        assert(ints(state.yearly_gauge_gain) =~= bump(fed.gained, fed.year));
        1
    } else {
        assert(ints(state.feeling_slot) =~= before.slot.update(
            idx as int,
            before.slot[idx as int] + amount,
        ));
        0
    }
}

/// The level of a gauge after it has been filled to `level`: a full gauge is emptied.
pub open spec fn settled(level: int) -> int {
    if level >= GAUGE_LIMIT {
        0
    } else {
        level
    }
}

/// The base points of a turn can be added to the gauges within the range of their type.
pub open spec fn base_fits(slot: Seq<int>, base: Seq<int>) -> bool {
    &&& i32::MIN <= slot[0] + base[0] <= i32::MAX
    &&& i32::MIN <= slot[1] + base[1] <= i32::MAX
    &&& i32::MIN <= slot[2] + base[2] <= i32::MAX
}

/// What every gauge lacks is within the range of its type.
pub open spec fn lacks_fit(slot: Seq<int>) -> bool {
    &&& GAUGE_LIMIT - slot[0] <= i32::MAX
    &&& GAUGE_LIMIT - slot[1] <= i32::MAX
    &&& GAUGE_LIMIT - slot[2] <= i32::MAX
}

proof fn lemma_trimmed_frame(k: Kitchen)
    ensures
        k.trimmed().slot == k.slot,
        k.trimmed().year == k.year,
        k.trimmed().gained == k.gained,
    decreases k.queue.len(),
{
    if sum3(k.stock) > FEELING_LIMIT && k.queue.len() > 0 {
        let i = k.queue[0].idx();
        if k.stock[i] > 0 {
            lemma_trimmed_frame(
                Kitchen {
                    stock: k.stock.update(i, k.stock[i] - 1),
                    queue: k.queue.drop_first(),
                    dropped: bump(k.dropped, k.year),
                    ..k
                },
            );
        } else {
            lemma_trimmed_frame(Kitchen { queue: k.queue.drop_first(), ..k });
        }
    }
}

proof fn lemma_gauge_slot(k: Kitchen, ft: FeelingType, amount: int)
    ensures
        k.gauge(ft, amount).slot == k.slot.update(ft.idx(), settled(k.slot[ft.idx()] + amount)),
        k.gauge(ft, amount).year == k.year,
{
    if k.gauge_full(ft, amount) {
        let e = Kitchen { slot: k.slot.update(ft.idx(), 0), ..k };
        assert(e.gain(ft, 0) == e);
        lemma_trimmed_frame(e.pushed(ft));
        assert(e.gain(ft, 1) == e.pushed(ft).trimmed());
    }
}

/// One, where something holds.
pub open spec fn one_if(b: bool) -> int {
    if b {
        1
    } else {
        0
    }
}

/// The points that the base points of a turn bring, by kind.
pub open spec fn base_gains(slot: Seq<int>, base: Seq<int>) -> Seq<int> {
    seq![
        one_if(slot[0] + base[0] >= GAUGE_LIMIT),
        one_if(slot[1] + base[1] >= GAUGE_LIMIT),
        one_if(slot[2] + base[2] >= GAUGE_LIMIT),
    ]
}

/// The points that a training brings, by kind.
pub open spec fn train_gains(slot: Seq<int>, base: Seq<int>, shown: FeelingType, bonus: int) -> Seq<
    int,
> {
    let k = shown.idx();
    base_gains(slot, base).update(
        k,
        base_gains(slot, base)[k] + one_if(settled(slot[k] + base[k]) + bonus >= GAUGE_LIMIT),
    )
}

/// The points that the summer camp brings, by kind.
pub open spec fn camp_gains(slot: Seq<int>) -> Seq<int> {
    seq![
        one_if(slot[0] < GAUGE_LIMIT),
        one_if(slot[1] < GAUGE_LIMIT),
        one_if(slot[2] < GAUGE_LIMIT),
    ]
}

proof fn lemma_gauge_room(k: Kitchen, ft: FeelingType, amount: int, add: Seq<int>)
    requires
        k.shaped(),
        add.len() == 3,
        add[0] >= 0 && add[1] >= 0 && add[2] >= 0,
        add[ft.idx()] >= one_if(k.gauge_full(ft, amount)),
        k.has_room(add),
    ensures
        gauge_ready(k, ft, amount),
        k.gauge(ft, amount).shaped(),
        k.gauge(ft, amount).has_room(
            add.update(ft.idx(), add[ft.idx()] - one_if(k.gauge_full(ft, amount))),
        ),
        k.gauge(ft, amount).slot == k.slot.update(ft.idx(), settled(k.slot[ft.idx()] + amount)),
{
    lemma_gauge_slot(k, ft, amount);
    if k.gauge_full(ft, amount) {
        let e = Kitchen { slot: k.slot.update(ft.idx(), 0), ..k };
        lemma_gain_sums(e, ft, 1);
    } else {
        assert(add.update(ft.idx(), add[ft.idx()] - 0) =~= add);
    }
}

/// Extra gauge points of a training: one, one per support card, one per two NPCs.
pub fn calc_train_feeling_bonus(support_count: usize, npc_count: usize) -> (bonus: i32)
    requires
        1 + support_count + npc_count / 2 <= i32::MAX,
    ensures
        bonus == 1 + support_count + npc_count / 2,
{
    (1 + support_count + npc_count / 2) as i32
}

/// Raises every gauge by two for a friendship training, up to the limit.
pub fn apply_friendship_gauge_bonus(state: &mut RamenState)
    requires
        old(state).feeling_slot@[0] + 2 <= i32::MAX,
        old(state).feeling_slot@[1] + 2 <= i32::MAX,
        old(state).feeling_slot@[2] + 2 <= i32::MAX,
    ensures
        final(state).kitchen() == old(state).kitchen().friendship_filled(),
        old(state).kitchen_step(*final(state)),
{
    let a: i32 = (state.feeling_slot[0] + 2).min(GAUGE_LIMIT);
    let b: i32 = (state.feeling_slot[1] + 2).min(GAUGE_LIMIT);
    let c: i32 = (state.feeling_slot[2] + 2).min(GAUGE_LIMIT);
    let ghost before = state.kitchen();
    state.feeling_slot = [a, b, c];
    assert(ints(state.feeling_slot) =~= before.friendship_filled().slot);
}

/// Tops up one gauge to its limit.
fn fill_gauge_max(state: &mut RamenState, feeling_type: FeelingType)
    requires
        GAUGE_LIMIT - old(state).kitchen().slot[feeling_type.idx()] <= i32::MAX,
        old(state).kitchen().slot[feeling_type.idx()] < GAUGE_LIMIT ==> gauge_ready(
            old(state).kitchen(),
            feeling_type,
            GAUGE_LIMIT - old(state).kitchen().slot[feeling_type.idx()],
        ),
    ensures
        final(state).kitchen() == old(state).kitchen().maxed(feeling_type),
        old(state).kitchen_step(*final(state)),
{
    let need: i32 = GAUGE_LIMIT - state.feeling_slot[feeling_type.index()];
    if need > 0 {
        let _ = add_gauge(state, feeling_type, need);
    }
}

proof fn lemma_maxed_slot(k: Kitchen, ft: FeelingType)
    ensures
        k.maxed(ft).slot == if k.slot[ft.idx()] < GAUGE_LIMIT {
            k.slot.update(ft.idx(), 0)
        } else {
            k.slot
        },
{
    lemma_gauge_slot(k, ft, GAUGE_LIMIT - k.slot[ft.idx()]);
}

proof fn lemma_maxed_room(k: Kitchen, ft: FeelingType, add: Seq<int>)
    requires
        k.shaped(),
        add.len() == 3,
        add[0] >= 0 && add[1] >= 0 && add[2] >= 0,
        add[ft.idx()] >= one_if(k.slot[ft.idx()] < GAUGE_LIMIT),
        k.has_room(add),
    ensures
        k.slot[ft.idx()] < GAUGE_LIMIT ==> gauge_ready(k, ft, GAUGE_LIMIT - k.slot[ft.idx()]),
        k.maxed(ft).shaped(),
        k.maxed(ft).has_room(
            add.update(ft.idx(), add[ft.idx()] - one_if(k.slot[ft.idx()] < GAUGE_LIMIT)),
        ),
{
    if k.slot[ft.idx()] < GAUGE_LIMIT {
        lemma_gauge_room(k, ft, GAUGE_LIMIT - k.slot[ft.idx()], add);
    } else {
        assert(add.update(ft.idx(), add[ft.idx()] - 0) =~= add);
    }
}

/// The summer camp rule: all three gauges are topped up.
fn fill_gauge_xiahesu_max(state: &mut RamenState)
    requires
        old(state).kitchen().has_room(camp_gains(old(state).kitchen().slot)),
        lacks_fit(old(state).kitchen().slot),
    ensures
        final(state).kitchen() == old(state).kitchen().all_maxed(),
        old(state).kitchen_step(*final(state)),
{
    proof {
        let k0 = state.kitchen();
        let k1 = k0.maxed(FeelingType::A);
        let k2 = k1.maxed(FeelingType::B);
        let add = camp_gains(k0.slot);
        lemma_maxed_slot(k0, FeelingType::A);
        lemma_maxed_slot(k1, FeelingType::B);
        lemma_maxed_room(k0, FeelingType::A, add);
        let add1 = add.update(0, add[0] - one_if(k0.slot[0] < GAUGE_LIMIT));
        lemma_maxed_room(k1, FeelingType::B, add1);
        let add2 = add1.update(1, add1[1] - one_if(k1.slot[1] < GAUGE_LIMIT));
        lemma_maxed_room(k2, FeelingType::C, add2);
    }
    fill_gauge_max(state, FeelingType::A);
    fill_gauge_max(state, FeelingType::B);
    fill_gauge_max(state, FeelingType::C);
}

proof fn lemma_base_room(k: Kitchen, base: Seq<int>, add: Seq<int>)
    requires
        k.shaped(),
        add.len() == 3,
        add[0] >= base_gains(k.slot, base)[0],
        add[1] >= base_gains(k.slot, base)[1],
        add[2] >= base_gains(k.slot, base)[2],
        k.has_room(add),
    ensures
        ({
            let k1 = k.gauge(FeelingType::A, base[0]);
            let k2 = k1.gauge(FeelingType::B, base[1]);
            let gains = base_gains(k.slot, base);
            &&& gauge_ready(k, FeelingType::A, base[0])
            &&& gauge_ready(k1, FeelingType::B, base[1])
            &&& gauge_ready(k2, FeelingType::C, base[2])
            &&& k1.slot[1] == k.slot[1] && k2.slot[2] == k.slot[2]
            &&& k.base_filled(base).shaped()
            &&& k.base_filled(base).slot == seq![
                settled(k.slot[0] + base[0]),
                settled(k.slot[1] + base[1]),
                settled(k.slot[2] + base[2]),
            ]
            &&& k.base_filled(base).has_room(
                seq![add[0] - gains[0], add[1] - gains[1], add[2] - gains[2]],
            )
        }),
{
    let gains = base_gains(k.slot, base);
    let k1 = k.gauge(FeelingType::A, base[0]);
    let k2 = k1.gauge(FeelingType::B, base[1]);
    let k3 = k2.gauge(FeelingType::C, base[2]);
    lemma_gauge_room(k, FeelingType::A, base[0], add);
    let add1 = add.update(0, add[0] - gains[0]);
    lemma_gauge_room(k1, FeelingType::B, base[1], add1);
    let add2 = add1.update(1, add1[1] - gains[1]);
    lemma_gauge_room(k2, FeelingType::C, base[2], add2);
    assert(add2.update(2, add2[2] - gains[2]) =~= seq![
        add[0] - gains[0],
        add[1] - gains[1],
        add[2] - gains[2],
    ]);
    assert(k3 == k.base_filled(base));
}

/// Adds the base points of a turn to the three gauges.
fn fill_gauge_base(state: &mut RamenState, base_dist: &[i32; 3])
    requires
        ({
            let k = old(state).kitchen();
            let base = ints(*base_dist);
            let k1 = k.gauge(FeelingType::A, base[0]);
            let k2 = k1.gauge(FeelingType::B, base[1]);
            &&& base_fits(k.slot, base)
            &&& gauge_ready(k, FeelingType::A, base[0])
            &&& gauge_ready(k1, FeelingType::B, base[1])
            &&& gauge_ready(k2, FeelingType::C, base[2])
            &&& k1.slot[1] == k.slot[1] && k2.slot[2] == k.slot[2]
        }),
    ensures
        final(state).kitchen() == old(state).kitchen().base_filled(ints(*base_dist)),
        old(state).kitchen_step(*final(state)),
{
    let _ = add_gauge(state, FeelingType::A, base_dist[0]);
    let _ = add_gauge(state, FeelingType::B, base_dist[1]);
    let _ = add_gauge(state, FeelingType::C, base_dist[2]);
}

/// Fills the gauges after a training: base points, the bonus of the shown kind, and two more of
/// every kind for a friendship training. In the summer camp all gauges are topped up instead.
pub fn fill_gauge_after_train(
    state: &mut RamenState,
    base_dist: &[i32; 3],
    train_type: FeelingType,
    train_bonus: i32,
    is_shining: bool,
    is_xiahesu: bool,
)
    requires
        old(state).kitchen().has_room(
            if is_xiahesu {
                camp_gains(old(state).kitchen().slot)
            } else {
                train_gains(
                    old(state).kitchen().slot,
                    ints(*base_dist),
                    train_type,
                    train_bonus as int,
                )
            },
        ),
        is_xiahesu ==> lacks_fit(old(state).kitchen().slot),
        !is_xiahesu ==> base_fits(old(state).kitchen().slot, ints(*base_dist)),
        !is_xiahesu ==> i32::MIN <= settled(
            old(state).kitchen().slot[train_type.idx()] + ints(*base_dist)[train_type.idx()],
        ) + train_bonus <= i32::MAX,
    ensures
        final(state).kitchen() == old(state).kitchen().after_train(
            ints(*base_dist),
            train_type,
            train_bonus as int,
            is_shining,
            is_xiahesu,
        ),
        old(state).kitchen_step(*final(state)),
{
    if is_xiahesu {
        fill_gauge_xiahesu_max(state);
        return;
    }
    proof {
        let k0 = state.kitchen();
        let base = ints(*base_dist);
        let add = train_gains(k0.slot, base, train_type, train_bonus as int);
        let gains = base_gains(k0.slot, base);
        lemma_base_room(k0, base, add);
        lemma_gauge_room(
            k0.base_filled(base),
            train_type,
            train_bonus as int,
            seq![add[0] - gains[0], add[1] - gains[1], add[2] - gains[2]],
        );
    }
    fill_gauge_base(state, base_dist);
    let _ = add_gauge(state, train_type, train_bonus);
    if is_shining {
        apply_friendship_gauge_bonus(state);
    }
}

/// Fills the gauges after any other action: base points only. In the summer camp all gauges are
/// topped up instead.
pub fn fill_gauge_after_non_train(state: &mut RamenState, base_dist: &[i32; 3], is_xiahesu: bool)
    requires
        old(state).kitchen().has_room(
            if is_xiahesu {
                camp_gains(old(state).kitchen().slot)
            } else {
                base_gains(old(state).kitchen().slot, ints(*base_dist))
            },
        ),
        is_xiahesu ==> lacks_fit(old(state).kitchen().slot),
        !is_xiahesu ==> base_fits(old(state).kitchen().slot, ints(*base_dist)),
    ensures
        final(state).kitchen() == old(state).kitchen().after_non_train(
            ints(*base_dist),
            is_xiahesu,
        ),
        old(state).kitchen_step(*final(state)),
{
    if is_xiahesu {
        fill_gauge_xiahesu_max(state);
        return;
    }
    proof {
        let k0 = state.kitchen();
        lemma_base_room(k0, ints(*base_dist), base_gains(k0.slot, ints(*base_dist)));
    }
    fill_gauge_base(state, base_dist);
}

// ========== Laws of the stock ==========

proof fn lemma_count_push(q: Seq<FeelingType>, ft: FeelingType, k: int)
    ensures
        count_of(q.push(ft), k) == count_of(q, k) + if ft.idx() == k {
            1int
        } else {
            0
        },
    decreases q.len(),
{
    if q.len() == 0 {
        assert(q.push(ft).drop_first() =~= q);
        assert(count_of(q.push(ft), k) == count_of(q.push(ft).drop_first(), k) + if ft.idx() == k { 1int } else { 0 });
    } else {
        assert(q.push(ft).drop_first() =~= q.drop_first().push(ft));
        lemma_count_push(q.drop_first(), ft, k);
    }
}

proof fn lemma_count_nonneg(q: Seq<FeelingType>, k: int)
    ensures
        0 <= count_of(q, k) <= q.len(),
    decreases q.len(),
{
    if q.len() > 0 {
        lemma_count_nonneg(q.drop_first(), k);
    }
}

proof fn lemma_count_total(q: Seq<FeelingType>)
    ensures
        count_of(q, 0) + count_of(q, 1) + count_of(q, 2) == q.len(),
    decreases q.len(),
{
    if q.len() > 0 {
        lemma_count_total(q.drop_first());
    }
}

/// The last `n` points of a queue, or all of them if there are fewer.
pub open spec fn newest(q: Seq<FeelingType>, n: int) -> Seq<FeelingType> {
    if q.len() <= n {
        q
    } else {
        q.skip(q.len() - n)
    }
}

/// While the queue lists what is in stock, it keeps doing so, the stock stays within its limit,
/// and exactly the earliest points go.
pub proof fn law_trim_drops_oldest(k: Kitchen)
    requires
        k.consistent(),
    ensures
        k.trimmed().consistent(),
        k.trimmed().queue == newest(k.queue, FEELING_LIMIT as int),
        sum3(k.trimmed().stock) <= FEELING_LIMIT,
        sum3(k.trimmed().stock) == k.trimmed().queue.len(),
    decreases k.queue.len(),
{
    lemma_count_total(k.queue);
    if sum3(k.stock) > FEELING_LIMIT && k.queue.len() > 0 {
        let i = k.queue[0].idx();
        lemma_count_nonneg(k.queue.drop_first(), i);
        let k2 = Kitchen {
            stock: k.stock.update(i, k.stock[i] - 1),
            queue: k.queue.drop_first(),
            dropped: bump(k.dropped, k.year),
            ..k
        };
        assert(k2.consistent());
        law_trim_drops_oldest(k2);
        assert(newest(k.queue, FEELING_LIMIT as int) =~= newest(k2.queue, FEELING_LIMIT as int));
    }
}

/// Gaining points keeps queue and stock in step. Of the old queue and the new points the ten
/// newest remain, in the order in which they were gained.
pub proof fn law_gain_keeps_newest(k: Kitchen, ft: FeelingType, n: int)
    requires
        k.consistent(),
        k.queue.len() <= FEELING_LIMIT,
        n >= 0,
    ensures
        k.gain(ft, n).consistent(),
        k.gain(ft, n).queue == newest(
            k.queue + Seq::new(n as nat, |i: int| ft),
            FEELING_LIMIT as int,
        ),
        sum3(k.gain(ft, n).stock) == k.gain(ft, n).queue.len(),
        sum3(k.gain(ft, n).stock) <= FEELING_LIMIT,
    decreases n,
{
    lemma_count_total(k.queue);
    if n == 0 {
        assert(k.queue + Seq::new(0, |i: int| ft) =~= k.queue);
    } else {
        law_gain_keeps_newest(k, ft, n - 1);
        let g = k.gain(ft, n - 1);
        let p = g.pushed(ft);
        assert forall|j: int| 0 <= j < 3 implies #[trigger] p.stock[j] == count_of(p.queue, j) by {
            lemma_count_push(g.queue, ft, j);
        }
        law_trim_drops_oldest(p);
        let full = k.queue + Seq::new(n as nat, |i: int| ft);
        let prev = k.queue + Seq::new((n - 1) as nat, |i: int| ft);
        assert(full =~= prev.push(ft));
        assert(newest(newest(prev, FEELING_LIMIT as int).push(ft), FEELING_LIMIT as int) =~= newest(
            full,
            FEELING_LIMIT as int,
        ));
    }
}

/// Filling a gauge keeps queue and stock in step and the stock within its limit.
pub proof fn law_gauge_keeps_stock(k: Kitchen, ft: FeelingType, amount: int)
    requires
        k.consistent(),
        k.queue.len() <= FEELING_LIMIT,
    ensures
        k.gauge(ft, amount).consistent(),
        k.gauge(ft, amount).queue.len() <= FEELING_LIMIT,
        sum3(k.gauge(ft, amount).stock) == k.gauge(ft, amount).queue.len(),
{
    lemma_count_total(k.queue);
    if k.gauge_full(ft, amount) {
        let e = Kitchen { slot: k.slot.update(ft.idx(), 0), ..k };
        law_gain_keeps_newest(e, ft, 1);
    }
}

/// In the summer camp every gauge below its limit is emptied, whatever its level was.
pub proof fn law_summer_camp_empties_gauges(k: Kitchen)
    requires
        k.slot.len() == 3,
    ensures
        forall|i: int|
            0 <= i < 3 ==> #[trigger] k.all_maxed().slot[i] == if k.slot[i] < GAUGE_LIMIT {
                0
            } else {
                k.slot[i]
            },
{
    let ka = k.maxed(FeelingType::A);
    let kb = ka.maxed(FeelingType::B);
    lemma_maxed_slot(k, FeelingType::A);
    lemma_maxed_slot(ka, FeelingType::B);
    lemma_maxed_slot(kb, FeelingType::C);
}

/// A training without bonus and without friendship fills the gauges as any other action does.
pub proof fn law_plain_training_fills_like_other_actions(
    k: Kitchen,
    base: Seq<int>,
    shown: FeelingType,
    camp: bool,
)
    requires
        k.slot.len() == 3,
    ensures
        k.after_train(base, shown, 0, false, camp) == k.after_non_train(base, camp),
{
    let k1 = k.gauge(FeelingType::A, base[0]);
    let k2 = k1.gauge(FeelingType::B, base[1]);
    let filled = k2.gauge(FeelingType::C, base[2]);
    lemma_gauge_slot(k, FeelingType::A, base[0]);
    lemma_gauge_slot(k1, FeelingType::B, base[1]);
    lemma_gauge_slot(k2, FeelingType::C, base[2]);
    assert(filled == k.base_filled(base));
    assert(filled.slot[shown.idx()] < GAUGE_LIMIT);
    assert(filled.slot.update(shown.idx(), filled.slot[shown.idx()] + 0) =~= filled.slot);
    assert(filled.gauge(shown, 0) == filled);
}

/// In the summer camp the result of a turn depends on nothing but the state before it: neither the
/// base points nor the training, its bonus or a friendship count.
pub proof fn law_summer_camp_ignores_training(
    k: Kitchen,
    base: Seq<int>,
    shown: FeelingType,
    bonus: int,
    shining: bool,
    other_base: Seq<int>,
    other_shown: FeelingType,
    other_bonus: int,
    other_shining: bool,
)
    ensures
        k.after_train(base, shown, bonus, shining, true) == k.after_train(
            other_base,
            other_shown,
            other_bonus,
            other_shining,
            true,
        ),
        k.after_train(base, shown, bonus, shining, true) == k.after_non_train(other_base, true),
{
}

// ========== Base points of the gauges ==========

/// What the recipes of the three picked regions cost together, by kind.
pub open spec fn recipe_sum(data: &RamenScenarioData, regions: Seq<usize>) -> Seq<int> {
    Seq::new(
        3,
        |j: int|
            data.recipe(regions[0] as int)@[j] + data.recipe(regions[1] as int)@[j] + data.recipe(
                regions[2] as int,
            )@[j],
    )
}

/// A kind that is used exactly once gets exactly one point.
pub open spec fn fixed_part(c: int) -> int {
    if c == 1 {
        1
    } else {
        0
    }
}

/// What a kind takes part in the proportional split with.
pub open spec fn open_part(c: int) -> int {
    if c == 1 {
        0
    } else {
        c
    }
}

/// Points left for the proportional split.
pub open spec fn open_points(c: Seq<int>) -> int {
    GAUGE_BASE_SUM - fixed_part(c[0]) - fixed_part(c[1]) - fixed_part(c[2])
}

/// Total use of the kinds that take part in the proportional split.
pub open spec fn open_total(c: Seq<int>) -> int {
    open_part(c[0]) + open_part(c[1]) + open_part(c[2])
}

/// The integer nearest to `a / b`; a half is rounded up.
pub open spec fn nearest(a: int, b: int) -> int {
    (2 * a + b) / (2 * b)
}

/// One kind's share, rounded to the nearest integer.
pub open spec fn base_share(c: Seq<int>, i: int) -> int {
    if c[i] == 1 {
        1
    } else if open_total(c) > 0 {
        nearest(c[i] * open_points(c), open_total(c))
    } else {
        0
    }
}

/// The shares of the three kinds, each rounded to the nearest integer.
pub open spec fn base_shares(c: Seq<int>) -> Seq<int> {
    seq![base_share(c, 0), base_share(c, 1), base_share(c, 2)]
}

/// The kind that gets the next spare point: not a fixed one, the one with the fewest points,
/// among those the one used most, among those the first.
pub open spec fn is_neediest(r: Seq<int>, c: Seq<int>, b: int) -> bool {
    &&& 0 <= b < 3
    &&& c[b] != 1
    &&& forall|i: int|
        0 <= i < 3 && #[trigger] c[i] != 1 ==> r[b] < r[i] || (r[b] == r[i] && (c[b] > c[i] || (
        c[b] == c[i] && b <= i)))
}

/// The kind that gets the next spare point.
pub open spec fn neediest(r: Seq<int>, c: Seq<int>) -> int {
    choose|b: int| is_neediest(r, c, b)
}

/// Whether all three kinds are used exactly once.
pub open spec fn all_fixed(c: Seq<int>) -> bool {
    c[0] == 1 && c[1] == 1 && c[2] == 1
}

/// After handing out the spare points one by one.
pub open spec fn topped_up(r: Seq<int>, c: Seq<int>, spare: int) -> Seq<int>
    decreases spare,
{
    if spare <= 0 || all_fixed(c) {
        r
    } else {
        let b = neediest(r, c);
        topped_up(r.update(b, r[b] + 1), c, spare - 1)
    }
}

/// The kind that gives up the next excess point: not a fixed one, the one with the most points,
/// among those the one used least, among those the last.
pub open spec fn is_richest(r: Seq<int>, c: Seq<int>, b: int) -> bool {
    &&& 0 <= b < 3
    &&& c[b] != 1
    &&& forall|i: int|
        0 <= i < 3 && #[trigger] c[i] != 1 ==> r[b] > r[i] || (r[b] == r[i] && (c[b] < c[i] || (
        c[b] == c[i] && b >= i)))
}

/// The kind that gives up the next excess point.
pub open spec fn richest(r: Seq<int>, c: Seq<int>) -> int {
    choose|b: int| is_richest(r, c, b)
}

/// After taking back the excess points one by one.
pub open spec fn cut_down(r: Seq<int>, c: Seq<int>, excess: int) -> Seq<int>
    decreases excess,
{
    if excess <= 0 || all_fixed(c) {
        r
    } else {
        let b = richest(r, c);
        cut_down(r.update(b, r[b] - 1), c, excess - 1)
    }
}

/// The points that each gauge gains every turn, from the use of the three kinds: the rounded
/// shares, adjusted up or down until they add up to the points of a turn.
pub open spec fn base_points(c: Seq<int>) -> Seq<int> {
    let sum = sum3(base_shares(c));
    if sum <= GAUGE_BASE_SUM {
        topped_up(base_shares(c), c, GAUGE_BASE_SUM - sum)
    } else {
        cut_down(base_shares(c), c, sum - GAUGE_BASE_SUM)
    }
}

proof fn lemma_share(c: int, p: int, t: int)
    requires
        0 <= c <= t,
        t > 0,
        p >= 0,
    ensures
        0 <= nearest(c * p, t) <= p,
        c * p >= t ==> nearest(c * p, t) >= 1,
{
    assert(0 <= c * p <= t * p) by (nonlinear_arith)
        requires
            0 <= c <= t,
            p >= 0,
    ;
    let a = 2 * (c * p) + t;
    let d = 2 * t;
    let q = a / d;
    vstd::arithmetic::div_mod::lemma_div_pos_is_pos(a, d);
    vstd::arithmetic::div_mod::lemma_fundamental_div_mod(a, d);
    vstd::arithmetic::div_mod::lemma_mod_division_less_than_divisor(a, d);
    assert(d * q <= 2 * (t * p) + t);
    assert(q <= p) by (nonlinear_arith)
        requires
            d * q <= 2 * (t * p) + t,
            d == 2 * t,
            t > 0,
    ;
    if c * p >= t {
        assert(q >= 1) by (nonlinear_arith)
            requires
                a >= d,
                a < d * q + d,
                d > 0,
        ;
    }
}

proof fn lemma_shares_bounds(c: Seq<int>)
    requires
        c.len() == 3,
        c[0] >= 0,
        c[1] >= 0,
        c[2] >= 0,
    ensures
        0 <= base_share(c, 0) <= GAUGE_BASE_SUM,
        0 <= base_share(c, 1) <= GAUGE_BASE_SUM,
        0 <= base_share(c, 2) <= GAUGE_BASE_SUM,
{
    let t = open_total(c);
    let p = open_points(c);
    if t > 0 {
        lemma_share(open_part(c[0]), p, t);
        lemma_share(open_part(c[1]), p, t);
        lemma_share(open_part(c[2]), p, t);
    }
}

proof fn lemma_neediest_unique(r: Seq<int>, c: Seq<int>, b: int)
    requires
        is_neediest(r, c, b),
    ensures
        neediest(r, c) == b,
{
    let d = neediest(r, c);
    assert(is_neediest(r, c, d));
    assert(c[b] != 1 && c[d] != 1);
}

proof fn lemma_richest_unique(r: Seq<int>, c: Seq<int>, b: int)
    requires
        is_richest(r, c, b),
    ensures
        richest(r, c) == b,
{
    let d = richest(r, c);
    assert(is_richest(r, c, d));
    assert(c[b] != 1 && c[d] != 1);
}

/// The kind that gets the next spare point.
fn find_neediest(result: &[i32; 3], sums: &[i32; 3]) -> (best: usize)
    requires
        !all_fixed(ints(*sums)),
    ensures
        best < 3,
        is_neediest(ints(*result), ints(*sums), best as int),
{
    let ghost c = ints(*sums);
    let ghost r = ints(*result);
    let mut best: usize = 3;
    let mut k: usize = 0;
    while k < 3
        invariant
            k <= 3,
            c == ints(*sums),
            r == ints(*result),
            best == 3 <==> (forall|j: int| 0 <= j < k ==> #[trigger] c[j] == 1),
            best != 3 ==> best < k && c[best as int] != 1 && (forall|j: int|
                0 <= j < k && #[trigger] c[j] != 1 ==> r[best as int] < r[j] || (r[best as int]
                    == r[j] && (c[best as int] > c[j] || (c[best as int] == c[j] && best <= j)))),
        decreases 3 - k,
    {
        assert(c[k as int] == sums@[k as int] && r[k as int] == result@[k as int]);
        if sums[k] != 1 {
            if best == 3 {
                best = k;
            } else {
                assert(c[best as int] == sums@[best as int] && r[best as int]
                    == result@[best as int]);
                if result[k] < result[best] || (result[k] == result[best] && sums[k]
                    > sums[best]) {
                    best = k;
                }
            }
        }
        k = k + 1;
    }
    assert(c[0] != 1 || c[1] != 1 || c[2] != 1);
    best
}

/// The kind that gives up the next excess point.
fn find_richest(result: &[i32; 3], sums: &[i32; 3]) -> (best: usize)
    requires
        !all_fixed(ints(*sums)),
    ensures
        best < 3,
        is_richest(ints(*result), ints(*sums), best as int),
{
    let ghost c = ints(*sums);
    let ghost r = ints(*result);
    let mut best: usize = 3;
    let mut k: usize = 0;
    while k < 3
        invariant
            k <= 3,
            c == ints(*sums),
            r == ints(*result),
            best == 3 <==> (forall|j: int| 0 <= j < k ==> #[trigger] c[j] == 1),
            best != 3 ==> best < k && c[best as int] != 1 && (forall|j: int|
                0 <= j < k && #[trigger] c[j] != 1 ==> r[best as int] > r[j] || (r[best as int]
                    == r[j] && (c[best as int] < c[j] || (c[best as int] == c[j] && best >= j)))),
        decreases 3 - k,
    {
        assert(c[k as int] == sums@[k as int] && r[k as int] == result@[k as int]);
        if sums[k] != 1 {
            if best == 3 {
                best = k;
            } else {
                assert(c[best as int] == sums@[best as int] && r[best as int]
                    == result@[best as int]);
                if result[k] > result[best] || (result[k] == result[best] && sums[k]
                    <= sums[best]) {
                    best = k;
                }
            }
        }
        k = k + 1;
    }
    assert(c[0] != 1 || c[1] != 1 || c[2] != 1);
    best
}

/// Splits the base points of a turn over the three gauges in proportion to the use of each kind
/// in the recipes of the picked regions.
///
/// Kinds used exactly once get one point. The others share the rest, each share rounded to the
/// nearest integer. Where the points then fall short of the sum, those missing go one by one to the
/// kind that has the fewest; where they exceed it, the excess is taken back one by one from the
/// kind that has the most.
pub fn calc_gauge_base_distribution(data: &RamenScenarioData, selected_regions: &[usize; 3]) -> (dist:
    [i32; 3])
    requires
        data.recipes_valid(),
    ensures
        ints(dist) == base_points(recipe_sum(data, selected_regions@)),
        forall|i: int| 0 <= i < 3 ==> 0 <= #[trigger] dist@[i] <= GAUGE_BASE_SUM,
        !all_fixed(recipe_sum(data, selected_regions@)) ==> sum3(ints(dist)) == GAUGE_BASE_SUM,
{
    let n: usize = data.region_feeling.len();
    let f0: [i32; 3] = data.region_feeling[selected_regions[0] % n];
    let f1: [i32; 3] = data.region_feeling[selected_regions[1] % n];
    let f2: [i32; 3] = data.region_feeling[selected_regions[2] % n];
    let ghost c = recipe_sum(data, selected_regions@);
    assert(f0 == data.recipe(selected_regions@[0] as int));
    assert(f1 == data.recipe(selected_regions@[1] as int));
    assert(f2 == data.recipe(selected_regions@[2] as int));
    let sums: [i32; 3] = [
        f0[0] + f1[0] + f2[0],
        f0[1] + f1[1] + f2[1],
        f0[2] + f1[2] + f2[2],
    ];
    assert(ints(sums) =~= c);
    let mut remaining: i32 = GAUGE_BASE_SUM;
    let mut unfixed_consumed: i32 = 0;
    if sums[0] == 1 {
        remaining = remaining - 1;
    } else {
        unfixed_consumed = unfixed_consumed + sums[0];
    }
    if sums[1] == 1 {
        remaining = remaining - 1;
    } else {
        unfixed_consumed = unfixed_consumed + sums[1];
    }
    if sums[2] == 1 {
        remaining = remaining - 1;
    } else {
        unfixed_consumed = unfixed_consumed + sums[2];
    }
    assert(remaining == open_points(c));
    assert(unfixed_consumed == open_total(c));
    proof {
        lemma_shares_bounds(c);
    }
    let mut result: [i32; 3] = [0, 0, 0];
    let mut i: usize = 0;
    while i < 3
        invariant
            i <= 3,
            ints(sums) == c,
            c.len() == 3,
            c[0] >= 0 && c[1] >= 0 && c[2] >= 0,
            remaining == open_points(c),
            unfixed_consumed == open_total(c),
            forall|j: int| 0 <= j < 3 ==> 0 <= #[trigger] base_share(c, j) <= GAUGE_BASE_SUM,
            forall|j: int| 0 <= j < i ==> #[trigger] result@[j] == base_share(c, j),
        decreases 3 - i,
    {
        if sums[i] == 1 {
            result[i] = 1;
        } else if unfixed_consumed > 0 {
            assert(sums@[i as int] == c[i as int]);
            assert(0 <= c[i as int] * open_points(c) <= 0x7fff_ffff * 10) by (nonlinear_arith)
                requires
                    0 <= c[i as int] <= 0x7fff_ffff,
                    0 <= open_points(c) <= 10,
            ;
            let total: i64 = unfixed_consumed as i64;
            let share: i64 = (2 * ((sums[i] as i64) * (remaining as i64)) + total) / (2 * total);
            assert(share == base_share(c, i as int));
            result[i] = share as i32;
        } else {
            result[i] = 0;
        }
        i = i + 1;
    }
    assert(result@[0] == base_share(c, 0) && result@[1] == base_share(c, 1) && result@[2]
        == base_share(c, 2));
    assert(ints(result) =~= base_shares(c));
    let mut diff: i32 = GAUGE_BASE_SUM - (result[0] + result[1] + result[2]);
    let ghost short = diff >= 0;
    assert(all_fixed(c) ==> diff == 7);
    while diff > 0 && !(sums[0] == 1 && sums[1] == 1 && sums[2] == 1)
        invariant
            ints(sums) == c,
            c.len() == 3,
            short ==> diff >= 0,
            !short ==> diff < 0,
            0 <= result@[0] <= GAUGE_BASE_SUM,
            0 <= result@[1] <= GAUGE_BASE_SUM,
            0 <= result@[2] <= GAUGE_BASE_SUM,
            sum3(ints(result)) + diff == GAUGE_BASE_SUM,
            short ==> topped_up(ints(result), c, diff as int) == base_points(c),
            !short ==> cut_down(ints(result), c, -diff) == base_points(c),
            !short ==> fixed_kept(ints(result), c),
        decreases diff,
    {
        let best: usize = find_neediest(&result, &sums);
        let ghost r = ints(result);
        proof {
            lemma_neediest_unique(r, c, best as int);
            assert(r[best as int] == result@[best as int]);
        }
        result[best] = result[best] + 1;
        diff = diff - 1;
        assert(ints(result) =~= r.update(best as int, r[best as int] + 1));
    }
    while diff < 0
        invariant
            ints(sums) == c,
            c.len() == 3,
            0 <= result@[0] <= GAUGE_BASE_SUM,
            0 <= result@[1] <= GAUGE_BASE_SUM,
            0 <= result@[2] <= GAUGE_BASE_SUM,
            sum3(ints(result)) + diff == GAUGE_BASE_SUM,
            short ==> diff >= 0,
            short && !all_fixed(c) ==> diff == 0,
            short ==> ints(result) == base_points(c),
            !short ==> diff <= 0,
            !short ==> cut_down(ints(result), c, -diff) == base_points(c),
            !short ==> fixed_kept(ints(result), c),
        decreases -diff,
    {
        let ghost r = ints(result);
        proof {
            lemma_excess(r, c);
        }
        let best: usize = find_richest(&result, &sums);
        proof {
            lemma_richest_unique(r, c, best as int);
            assert(r[best as int] == result@[best as int]);
        }
        result[best] = result[best] - 1;
        diff = diff + 1;
        assert(ints(result) =~= r.update(best as int, r[best as int] - 1));
    }
    result
}

/// Kinds used exactly once have one point, and no kind has a negative number.
pub open spec fn fixed_kept(r: Seq<int>, c: Seq<int>) -> bool {
    &&& r.len() == 3
    &&& forall|i: int| 0 <= i < 3 ==> 0 <= #[trigger] r[i]
    &&& c[0] == 1 ==> r[0] == 1
    &&& c[1] == 1 ==> r[1] == 1
    &&& c[2] == 1 ==> r[2] == 1
}

proof fn lemma_excess(r: Seq<int>, c: Seq<int>)
    requires
        fixed_kept(r, c),
        sum3(r) > GAUGE_BASE_SUM,
    ensures
        !all_fixed(c),
        is_richest(r, c, richest(r, c)),
        r[richest(r, c)] >= 2,
{
    let b01: int = if c[0] == 1 {
        1
    } else if c[1] == 1 {
        0
    } else if r[1] > r[0] || (r[1] == r[0] && c[1] <= c[0]) {
        1
    } else {
        0
    };
    let b: int = if c[2] == 1 {
        b01
    } else if c[0] == 1 && c[1] == 1 {
        2
    } else if r[2] > r[b01] || (r[2] == r[b01] && c[2] <= c[b01]) {
        2
    } else {
        b01
    };
    assert(is_richest(r, c, b));
    lemma_richest_unique(r, c, b);
}

/// A position is left without points only where no recipe uses its kind.
pub proof fn law_used_kinds_get_points(c: Seq<int>, i: int)
    requires
        c.len() == 3,
        c[0] >= 0 && c[1] >= 0 && c[2] >= 0,
        c[0] + c[1] + c[2] == 3 * RAMEN_COST,
        0 <= i < 3,
        c[i] > 0,
    ensures
        base_points(c)[i] >= 1,
{
    lemma_shares_bounds(c);
    if c[i] != 1 {
        let t = open_total(c);
        let p = open_points(c);
        assert(c[i] * p >= t) by (nonlinear_arith)
            requires
                c[i] >= 2,
                p >= 8,
                t <= 15,
        ;
        lemma_share(c[i], p, t);
    }
    let sum = sum3(base_shares(c));
    if sum <= GAUGE_BASE_SUM {
        lemma_topped_up_grows(base_shares(c), c, GAUGE_BASE_SUM - sum, i);
    } else {
        lemma_cut_down_keeps(base_shares(c), c, sum - GAUGE_BASE_SUM, i);
    }
}

proof fn lemma_cut_down_keeps(r: Seq<int>, c: Seq<int>, excess: int, i: int)
    requires
        fixed_kept(r, c),
        sum3(r) - excess == GAUGE_BASE_SUM,
        0 <= i < 3,
        r[i] >= 1,
    ensures
        cut_down(r, c, excess)[i] >= 1,
    decreases excess,
{
    if excess > 0 {
        lemma_excess(r, c);
        let b = richest(r, c);
        lemma_cut_down_keeps(r.update(b, r[b] - 1), c, excess - 1, i);
    }
}

proof fn lemma_neediest_exists(r: Seq<int>, c: Seq<int>)
    requires
        !all_fixed(c),
    ensures
        is_neediest(r, c, neediest(r, c)),
{
    let b01: int = if c[0] == 1 {
        1
    } else if c[1] == 1 {
        0
    } else if r[1] < r[0] || (r[1] == r[0] && c[1] > c[0]) {
        1
    } else {
        0
    };
    let b: int = if c[2] == 1 {
        b01
    } else if c[0] == 1 && c[1] == 1 {
        2
    } else if r[2] < r[b01] || (r[2] == r[b01] && c[2] > c[b01]) {
        2
    } else {
        b01
    };
    assert(is_neediest(r, c, b));
}

proof fn lemma_topped_up_grows(r: Seq<int>, c: Seq<int>, spare: int, i: int)
    requires
        r.len() == 3,
        0 <= i < 3,
    ensures
        topped_up(r, c, spare).len() == 3,
        topped_up(r, c, spare)[i] >= r[i],
    decreases spare,
{
    if spare > 0 && !all_fixed(c) {
        let b = neediest(r, c);
        lemma_neediest_exists(r, c);
        lemma_topped_up_grows(r.update(b, r[b] + 1), c, spare - 1, i);
    }
}

// ========== Making a bowl ==========

/// A recipe: no negative amounts, and the fixed total.
pub open spec fn recipe_ok(recipe: Seq<int>) -> bool {
    &&& recipe.len() == 3
    &&& 0 <= recipe[0] && 0 <= recipe[1] && 0 <= recipe[2]
    &&& sum3(recipe) == RAMEN_COST
}

/// The sum of three machine integers, added from the left, stays within range.
pub open spec fn addable(t: Seq<int>) -> bool {
    &&& t.len() == 3
    &&& i32::MIN <= t[0] + t[1] <= i32::MAX
    &&& i32::MIN <= sum3(t) <= i32::MAX
}

/// What is wrong with a choice of hidden flavours, checked in this order: the total, then kind by
/// kind a negative count and a count above the recipe.
pub open spec fn targets_fault(recipe: Seq<int>, t: Seq<int>) -> Option<SimError> {
    if sum3(t) > 2 {
        Some(SimError::SpecialTotal { total: sum3(t) as i32 })
    } else {
        targets_fault_from(recipe, t, 0)
    }
}

/// The same from one kind on.
pub open spec fn targets_fault_from(recipe: Seq<int>, t: Seq<int>, i: int) -> Option<SimError>
    decreases 3 - i,
{
    if i >= 3 {
        None
    } else if t[i] < 0 {
        Some(SimError::SpecialNegative { index: i as usize, value: t[i] as i32 })
    } else if t[i] > recipe[i] {
        Some(
            SimError::SpecialOverRecipe {
                index: i as usize,
                value: t[i] as i32,
                cost: recipe[i] as i32,
            },
        )
    } else {
        targets_fault_from(recipe, t, i + 1)
    }
}

/// What is left to pay from the stock.
pub open spec fn net_cost(recipe: Seq<int>, t: Seq<int>) -> Seq<int> {
    seq![recipe[0] - t[0], recipe[1] - t[1], recipe[2] - t[2]]
}

/// The first kind of which too little is in stock.
pub open spec fn stock_fault_from(stock: Seq<int>, net: Seq<int>, i: int) -> Option<SimError>
    decreases 3 - i,
{
    if i >= 3 {
        None
    } else if stock[i] < net[i] {
        Some(
            SimError::FeelingShort {
                index: i as usize,
                need: net[i] as i32,
                have: stock[i] as i32,
            },
        )
    } else {
        stock_fault_from(stock, net, i + 1)
    }
}

/// Stock and hidden flavours suffice for the bowl.
pub open spec fn affordable(stock: Seq<int>, special: int, recipe: Seq<int>, t: Seq<int>) -> bool {
    &&& sum3(t) <= special
    &&& stock[0] >= recipe[0] - t[0]
    &&& stock[1] >= recipe[1] - t[1]
    &&& stock[2] >= recipe[2] - t[2]
}

/// Checks a choice of hidden flavours against a recipe: at most two in all, none negative, none
/// above what the recipe asks for.
pub fn validate_special_targets(recipe: &[i32; 3], special_targets: &[i32; 3]) -> (r: Result<(), SimError>)
    requires
        addable(ints(*special_targets)),
    ensures
        r == match targets_fault(ints(*recipe), ints(*special_targets)) {
            Some(e) => Err::<(), SimError>(e),
            None => Ok::<(), SimError>(()),
        },
{
    let total: i32 = special_targets[0] + special_targets[1] + special_targets[2];
    if total > 2 {
        return Err(SimError::SpecialTotal { total });
    }
    let mut i: usize = 0;
    while i < 3
        invariant
            i <= 3,
            targets_fault(ints(*recipe), ints(*special_targets)) == targets_fault_from(
                ints(*recipe),
                ints(*special_targets),
                i as int,
            ),
        decreases 3 - i,
    {
        if special_targets[i] < 0 {
            return Err(SimError::SpecialNegative { index: i, value: special_targets[i] });
        }
        if special_targets[i] > recipe[i] {
            return Err(
                SimError::SpecialOverRecipe {
                    index: i,
                    value: special_targets[i],
                    cost: recipe[i],
                },
            );
        }
        i = i + 1;
    }
    Ok(())
}

/// What is left to pay from the stock once hidden flavours have taken their part.
fn calc_net_recipe(recipe: &[i32; 3], special_targets: &[i32; 3]) -> (net: [i32; 3])
    requires
        forall|i: int|
            0 <= i < 3 ==> i32::MIN <= #[trigger] recipe@[i] - special_targets@[i] <= i32::MAX,
    ensures
        ints(net) == net_cost(ints(*recipe), ints(*special_targets)),
{
    assert(i32::MIN <= recipe@[0] - special_targets@[0] <= i32::MAX);
    assert(i32::MIN <= recipe@[1] - special_targets@[1] <= i32::MAX);
    assert(i32::MIN <= recipe@[2] - special_targets@[2] <= i32::MAX);
    [
        recipe[0] - special_targets[0],
        recipe[1] - special_targets[1],
        recipe[2] - special_targets[2],
    ]
}

/// Why the recipe of a region cannot be used: there is no such region, or its recipe does not cost
/// the fixed number of points.
pub open spec fn recipe_fault(data: &RamenScenarioData, recipe_idx: usize) -> Option<SimError> {
    if recipe_idx >= REGION_NUM {
        Some(SimError::RegionOutOfRange { region_id: recipe_idx })
    } else if sum3(ints(data.recipe(recipe_idx as int))) != RAMEN_COST {
        Some(SimError::RecipeCost { recipe_idx })
    } else {
        None
    }
}

/// The recipe of a region. The regions of the third year reuse the recipes from the start.
///
/// Refused where there is no such region, and where the recipe does not cost the fixed number of
/// points.
pub fn get_recipe(data: &RamenScenarioData, recipe_idx: usize) -> (r: Result<&[i32; 3], SimError>)
    requires
        data.recipes_valid(),
    ensures
        match r {
            Ok(recipe) => {
                &&& recipe_fault(data, recipe_idx) is None
                &&& *recipe == data.recipe(recipe_idx as int)
                &&& recipe_ok(ints(*recipe))
            },
            Err(e) => recipe_fault(data, recipe_idx) == Some(e),
        },
{
    if recipe_idx >= REGION_NUM {
        return Err(SimError::RegionOutOfRange { region_id: recipe_idx });
    }
    let n: usize = data.region_feeling.len();
    let recipe: &[i32; 3] = &data.region_feeling[recipe_idx % n];
    assert(*recipe == data.recipe(recipe_idx as int));
    assert(data.region_feeling@[recipe_idx as int % n as int]@[0] >= 0);
    assert(data.region_feeling@[recipe_idx as int % n as int]@[1] >= 0);
    assert(data.region_feeling@[recipe_idx as int % n as int]@[2] >= 0);
    if recipe[0] + recipe[1] + recipe[2] != RAMEN_COST {
        return Err(SimError::RecipeCost { recipe_idx });
    }
    Ok(recipe)
}

/// Whether stock and hidden flavours suffice for a bowl. The choice of hidden flavours is taken
/// to be valid for the recipe.
pub fn can_make_ramen(state: &RamenState, recipe: &[i32; 3], special_targets: &[i32; 3]) -> (ok: bool)
    requires
        addable(ints(*special_targets)),
        forall|i: int|
            0 <= i < 3 ==> i32::MIN <= #[trigger] recipe@[i] - special_targets@[i] <= i32::MAX,
    ensures
        ok == affordable(
            ints(state.feeling_stock),
            state.special_feeling as int,
            ints(*recipe),
            ints(*special_targets),
        ),
{
    let total_special: i32 = special_targets[0] + special_targets[1] + special_targets[2];
    if total_special > state.special_feeling {
        return false;
    }
    let net: [i32; 3] = calc_net_recipe(recipe, special_targets);
    assert(net@[0] == ints(net)[0] && net@[1] == ints(net)[1] && net@[2] == ints(net)[2]);
    state.feeling_stock[0] >= net[0] && state.feeling_stock[1] >= net[1] && state.feeling_stock[2]
        >= net[2]
}

/// A queue after taking out, from the front, the given number of points of each kind.
pub open spec fn taken_out(q: Seq<FeelingType>, net: Seq<int>) -> Seq<FeelingType>
    decreases q.len(),
{
    if q.len() == 0 {
        q
    } else {
        let k = q[0].idx();
        if net[k] > 0 {
            taken_out(q.drop_first(), net.update(k, net[k] - 1))
        } else {
            seq![q[0]] + taken_out(q.drop_first(), net)
        }
    }
}

/// Why a bowl cannot be made, checked in this order: region and recipe, the choice of hidden flavours,
/// the stock of hidden flavours, the stock kind by kind.
pub open spec fn consume_fault(
    data: &RamenScenarioData,
    state: &RamenState,
    recipe_idx: usize,
    t: Seq<int>,
) -> Option<SimError> {
    let recipe = ints(data.recipe(recipe_idx as int));
    if recipe_fault(data, recipe_idx) is Some {
        recipe_fault(data, recipe_idx)
    } else if targets_fault(recipe, t) is Some {
        targets_fault(recipe, t)
    } else if sum3(t) > state.special_feeling {
        Some(SimError::SpecialShort { need: sum3(t) as i32, have: state.special_feeling })
    } else {
        stock_fault_from(ints(state.feeling_stock), net_cost(recipe, t), 0)
    }
}

/// Takes points out of the queue, the earliest of each kind first.
fn take_out(queue: &Vec<FeelingType>, net: &[i32; 3]) -> (kept: Vec<FeelingType>)
    ensures
        kept@ == taken_out(queue@, ints(*net)),
{
    let mut remaining: [i32; 3] = [net[0], net[1], net[2]];
    let mut kept: Vec<FeelingType> = Vec::new();
    let mut i: usize = 0;
    assert(queue@.skip(0) =~= queue@);
    assert(ints(remaining) =~= ints(*net));
    assert(kept@ + taken_out(queue@.skip(0), ints(remaining)) =~= taken_out(queue@, ints(*net)));
    while i < queue.len()
        invariant
            i <= queue.len(),
            kept@ + taken_out(queue@.skip(i as int), ints(remaining)) == taken_out(
                queue@,
                ints(*net),
            ),
        decreases queue.len() - i,
    {
        let ft: FeelingType = queue[i];
        let k: usize = ft.index();
        let ghost rest = queue@.skip(i as int);
        let ghost rem = ints(remaining);
        let ghost kept0 = kept@;
        assert(rest.drop_first() =~= queue@.skip(i as int + 1));
        assert(rest[0] == ft);
        if remaining[k] > 0 {
            remaining[k] = remaining[k] - 1;
            assert(ints(remaining) =~= rem.update(k as int, rem[k as int] - 1));
        } else {
            kept.push(ft);
            assert(kept0 + (seq![ft] + taken_out(rest.drop_first(), rem)) =~= kept@ + taken_out(
                rest.drop_first(),
                rem,
            ));
        }
        i = i + 1;
    }
    assert(queue@.skip(i as int) =~= Seq::<FeelingType>::empty());
    assert(kept@ + taken_out(queue@.skip(i as int), ints(remaining)) =~= kept@);
    kept
}

/// A bowl has been paid for with stocks and hidden flavours.
pub open spec fn paid(
    before: RamenState,
    after: RamenState,
    recipe: Seq<int>,
    t: Seq<int>,
    used: int,
) -> bool {
    let net = net_cost(recipe, t);
    &&& used == sum3(t)
    &&& after.special_feeling == before.special_feeling - used
    &&& ints(after.feeling_stock) == seq![
        before.feeling_stock@[0] - net[0],
        before.feeling_stock@[1] - net[1],
        before.feeling_stock@[2] - net[2],
    ]
    &&& after.feeling_queue@ == taken_out(before.feeling_queue@, net)
    &&& after == (RamenState {
        feeling_stock: after.feeling_stock,
        feeling_queue: after.feeling_queue,
        special_feeling: after.special_feeling,
        ..before
    })
}

/// Pays for a bowl and returns the number of hidden flavours used.
///
/// Nothing is paid where the bowl is refused.
pub fn consume_for_ramen(
    data: &RamenScenarioData,
    state: &mut RamenState,
    recipe_idx: usize,
    special_targets: &[i32; 3],
) -> (r: Result<i32, SimError>)
    requires
        data.recipes_valid(),
        addable(ints(*special_targets)),
    ensures
        match consume_fault(data, old(state), recipe_idx, ints(*special_targets)) {
            Some(e) => r == Err::<i32, SimError>(e) && *final(state) == *old(state),
            None => {
                let net = net_cost(ints(data.recipe(recipe_idx as int)), ints(*special_targets));
                let used = sum3(ints(*special_targets));
                &&& r == Ok::<i32, SimError>(used as i32)
                &&& final(state).special_feeling == old(state).special_feeling - used
                &&& ints(final(state).feeling_stock) == seq![
                    old(state).feeling_stock@[0] - net[0],
                    old(state).feeling_stock@[1] - net[1],
                    old(state).feeling_stock@[2] - net[2],
                ]
                &&& final(state).feeling_queue@ == taken_out(old(state).feeling_queue@, net)
                &&& *final(state) == (RamenState {
                    feeling_stock: final(state).feeling_stock,
                    feeling_queue: final(state).feeling_queue,
                    special_feeling: final(state).special_feeling,
                    ..*old(state)
                })
            },
        },
        r matches Ok(used) ==> paid(
            *old(state),
            *final(state),
            ints(data.recipe(recipe_idx as int)),
            ints(*special_targets),
            used as int,
        ),
{
    let recipe: [i32; 3] = match get_recipe(data, recipe_idx) {
        Ok(recipe) => *recipe,
        Err(e) => {
            return Err(e);
        },
    };
    let ghost rec = ints(recipe);
    let ghost t = ints(*special_targets);
    match validate_special_targets(&recipe, special_targets) {
        Ok(()) => {},
        Err(e) => {
            return Err(e);
        },
    }
    proof {
        lemma_targets_fault(rec, t);
    }
    let total_special: i32 = special_targets[0] + special_targets[1] + special_targets[2];
    if total_special > state.special_feeling {
        return Err(SimError::SpecialShort { need: total_special, have: state.special_feeling });
    }
    assert forall|i: int| 0 <= i < 3 implies i32::MIN <= #[trigger] recipe@[i] - special_targets@[i]
        <= i32::MAX by {
        assert(recipe@[i] == rec[i] && special_targets@[i] == t[i]);
    }
    let net: [i32; 3] = calc_net_recipe(&recipe, special_targets);
    let ghost n = ints(net);
    let mut i: usize = 0;
    while i < 3
        invariant
            i <= 3,
            n == ints(net),
            *state == *old(state),
            consume_fault(data, old(state), recipe_idx, ints(*special_targets))
                == stock_fault_from(ints(state.feeling_stock), n, 0),
            stock_fault_from(ints(state.feeling_stock), n, 0) == stock_fault_from(
                ints(state.feeling_stock),
                n,
                i as int,
            ),
            forall|j: int| 0 <= j < i ==> #[trigger] state.feeling_stock@[j] >= net@[j],
        decreases 3 - i,
    {
        assert(net@[i as int] == n[i as int]);
        assert(state.feeling_stock@[i as int] == ints(state.feeling_stock)[i as int]);
        if state.feeling_stock[i] < net[i] {
            return Err(
                SimError::FeelingShort { index: i, need: net[i], have: state.feeling_stock[i] },
            );
        }
        i = i + 1;
    }
    assert(stock_fault_from(ints(state.feeling_stock), n, 3) is None);
    assert(net@[0] == n[0] && net@[1] == n[1] && net@[2] == n[2]);
    assert(state.feeling_stock@[0] >= net@[0]);
    assert(state.feeling_stock@[1] >= net@[1]);
    assert(state.feeling_stock@[2] >= net@[2]);
    let a: i32 = state.feeling_stock[0] - net[0];
    let b: i32 = state.feeling_stock[1] - net[1];
    let c: i32 = state.feeling_stock[2] - net[2];
    let kept: Vec<FeelingType> = take_out(&state.feeling_queue, &net);
    state.feeling_stock = [a, b, c];
    state.feeling_queue = kept;
    state.special_feeling = state.special_feeling - total_special;
    Ok(total_special)
}

proof fn lemma_targets_fault(recipe: Seq<int>, t: Seq<int>)
    requires
        recipe.len() == 3,
        t.len() == 3,
    ensures
        targets_fault(recipe, t) is None <==> sum3(t) <= 2 && 0 <= t[0] <= recipe[0] && 0 <= t[1]
            <= recipe[1] && 0 <= t[2] <= recipe[2],
{
    reveal_with_fuel(targets_fault_from, 4);
}

proof fn lemma_stock_fault(stock: Seq<int>, net: Seq<int>)
    ensures
        stock_fault_from(stock, net, 0) is None <==> stock[0] >= net[0] && stock[1] >= net[1]
            && stock[2] >= net[2],
{
    reveal_with_fuel(stock_fault_from, 4);
}

/// A bowl can be paid exactly if its region exists, its recipe has the fixed cost, the hidden
/// flavours are valid for it, and they and the stock suffice.
pub proof fn law_consume_succeeds_iff(
    data: &RamenScenarioData,
    state: &RamenState,
    recipe_idx: usize,
    t: Seq<int>,
)
    requires
        t.len() == 3,
    ensures
        consume_fault(data, state, recipe_idx, t) is None <==> ({
            let recipe = ints(data.recipe(recipe_idx as int));
            &&& recipe_idx < REGION_NUM
            &&& sum3(recipe) == RAMEN_COST
            &&& sum3(t) <= 2
            &&& 0 <= t[0] <= recipe[0] && 0 <= t[1] <= recipe[1] && 0 <= t[2] <= recipe[2]
            &&& affordable(ints(state.feeling_stock), state.special_feeling as int, recipe, t)
        }),
{
    let recipe = ints(data.recipe(recipe_idx as int));
    lemma_targets_fault(recipe, t);
    lemma_stock_fault(ints(state.feeling_stock), net_cost(recipe, t));
}

/// Paying takes exactly the net cost out of a queue that holds it: what remains is counted by
/// kind as before, less the cost.
pub proof fn law_taken_out_counts(q: Seq<FeelingType>, net: Seq<int>, k: int)
    requires
        net.len() == 3,
        0 <= k < 3,
        forall|j: int| 0 <= j < 3 ==> #[trigger] net[j] <= count_of(q, j),
    ensures
        count_of(taken_out(q, net), k) == count_of(q, k) - if net[k] > 0 {
            net[k]
        } else {
            0
        },
    decreases q.len(),
{
    if q.len() > 0 {
        let h = q[0].idx();
        let rest = q.drop_first();
        if net[h] > 0 {
            let net2 = net.update(h, net[h] - 1);
            assert forall|j: int| 0 <= j < 3 implies #[trigger] net2[j] <= count_of(rest, j) by {
                assert(net[j] <= count_of(q, j));
            }
            law_taken_out_counts(rest, net2, k);
        } else {
            assert forall|j: int| 0 <= j < 3 implies #[trigger] net[j] <= count_of(rest, j) by {
                assert(net[j] <= count_of(q, j));
                lemma_count_nonneg(rest, j);
            }
            law_taken_out_counts(rest, net, k);
            let tail = taken_out(rest, net);
            assert((seq![q[0]] + tail).drop_first() =~= tail);
        }
    } else {
        assert(net[k] <= count_of(q, k));
    }
}

/// Paying for a bowl keeps queue and stock in step.
pub proof fn law_consume_keeps_queue(before: Kitchen, after: Kitchen, net: Seq<int>)
    requires
        before.consistent(),
        net.len() == 3,
        forall|k: int| 0 <= k < 3 ==> 0 <= #[trigger] net[k] <= before.stock[k],
        after.queue == taken_out(before.queue, net),
        after.stock == seq![
            before.stock[0] - net[0],
            before.stock[1] - net[1],
            before.stock[2] - net[2],
        ],
    ensures
        after.consistent(),
{
    assert forall|j: int| 0 <= j < 3 implies #[trigger] net[j] <= count_of(before.queue, j) by {
        assert(before.stock[j] == count_of(before.queue, j));
    }
    assert forall|k: int| 0 <= k < 3 implies #[trigger] after.stock[k] == count_of(
        after.queue,
        k,
    ) by {
        law_taken_out_counts(before.queue, net, k);
        assert(before.stock[k] == count_of(before.queue, k));
    }
}

// ========== Choosing hidden flavours ==========

/// The number of points of a kind that the stock lacks.
pub open spec fn gap(recipe: int, stock: int) -> int {
    if recipe > stock {
        recipe - stock
    } else {
        0
    }
}

/// The hidden flavours that a bowl needs at least, by kind.
pub open spec fn gaps(recipe: Seq<int>, stock: Seq<int>) -> Seq<int> {
    seq![gap(recipe[0], stock[0]), gap(recipe[1], stock[1]), gap(recipe[2], stock[2])]
}

/// A choice of hidden flavours with which the bowl can be made.
pub open spec fn legal_targets(stock: Seq<int>, special: int, recipe: Seq<int>, t: Seq<int>) -> bool {
    &&& t.len() == 3
    &&& gap(recipe[0], stock[0]) <= t[0] <= recipe[0]
    &&& gap(recipe[1], stock[1]) <= t[1] <= recipe[1]
    &&& gap(recipe[2], stock[2]) <= t[2] <= recipe[2]
    &&& sum3(t) <= 2
    &&& sum3(t) <= special
}

/// Every choice of at most two hidden flavours: fewest first, then in lexicographic order.
pub open spec fn special_order() -> Seq<Seq<int>> {
    seq![
        seq![0int, 0, 0],
        seq![0int, 0, 1],
        seq![0int, 1, 0],
        seq![1int, 0, 0],
        seq![0int, 0, 2],
        seq![0int, 1, 1],
        seq![0int, 2, 0],
        seq![1int, 0, 1],
        seq![1int, 1, 0],
        seq![2int, 0, 0],
    ]
}

/// A list of triples as mathematical values.
pub open spec fn rows(v: Seq<[i32; 3]>) -> Seq<Seq<int>> {
    Seq::new(v.len(), |i: int| ints(v[i]))
}

/// The legal choices for a bowl, in their order.
pub open spec fn legal_list(stock: Seq<int>, special: int, recipe: Seq<int>) -> Seq<Seq<int>> {
    special_order().filter(|t: Seq<int>| legal_targets(stock, special, recipe, t))
}

/// The choice that uses the fewest hidden flavours, if the bowl can be made at all.
///
/// No legal choice can use fewer flavours of any kind than the stock lacks, so filling the gaps is
/// the one smallest choice. Where a gap is larger than what the recipe asks for, no choice is legal.
pub fn min_special_targets(state: &RamenState, recipe: &[i32; 3]) -> (r: Option<[i32; 3]>)
    ensures
        match r {
            Some(t) => {
                &&& ints(t) == gaps(ints(*recipe), ints(state.feeling_stock))
                &&& legal_targets(
                    ints(state.feeling_stock),
                    state.special_feeling as int,
                    ints(*recipe),
                    ints(t),
                )
            },
            None => forall|t: Seq<int>|
                !legal_targets(
                    ints(state.feeling_stock),
                    state.special_feeling as int,
                    ints(*recipe),
                    t,
                ),
        },
{
    assert(recipe@[0] == ints(*recipe)[0] && recipe@[1] == ints(*recipe)[1] && recipe@[2] == ints(
        *recipe,
    )[2]);
    let a: i64 = (recipe[0] as i64 - state.feeling_stock[0] as i64).max(0);
    let b: i64 = (recipe[1] as i64 - state.feeling_stock[1] as i64).max(0);
    let c: i64 = (recipe[2] as i64 - state.feeling_stock[2] as i64).max(0);
    let cap: i32 = state.special_feeling.min(2);
    if a + b + c > cap as i64 || a > recipe[0] as i64 || b > recipe[1] as i64 || c
        > recipe[2] as i64 {
        return None;
    }
    Some([a as i32, b as i32, c as i32])
}

/// Adds a choice to the list if it is legal.
fn push_if_legal(state: &RamenState, recipe: &[i32; 3], min_needed: &[i32; 3], t: [i32; 3], out: &mut Vec<[i32; 3]>)
    requires
        recipe_ok(ints(*recipe)),
        ints(*min_needed) == gaps(ints(*recipe), ints(state.feeling_stock)),
        0 <= t@[0] <= 2 && 0 <= t@[1] <= 2 && 0 <= t@[2] <= 2,
        sum3(ints(t)) <= 2,
    ensures
        final(out)@ == if legal_targets(
            ints(state.feeling_stock),
            state.special_feeling as int,
            ints(*recipe),
            ints(t),
        ) {
            old(out)@.push(t)
        } else {
            old(out)@
        },
{
    assert(recipe@[0] == ints(*recipe)[0] && recipe@[1] == ints(*recipe)[1] && recipe@[2] == ints(
        *recipe,
    )[2]);
    assert(min_needed@[0] == ints(*min_needed)[0] && min_needed@[1] == ints(*min_needed)[1]
        && min_needed@[2] == ints(*min_needed)[2]);
    if min_needed[0] <= t[0] && t[0] <= recipe[0] && min_needed[1] <= t[1] && t[1] <= recipe[1]
        && min_needed[2] <= t[2] && t[2] <= recipe[2] && can_make_ramen(state, recipe, &t) {
        out.push(t);
    }
}

/// All legal choices of hidden flavours for a bowl, those that use fewest first.
///
/// The list is empty exactly where the bowl cannot be made. Refused where there is no such region,
/// and where the recipe does not cost the fixed number of points.
pub fn list_special_targets_for(data: &RamenScenarioData, state: &RamenState, ramen_idx: usize) -> (r:
    Result<Vec<[i32; 3]>, SimError>)
    requires
        data.recipes_valid(),
    ensures
        match r {
            Ok(list) => {
                &&& recipe_fault(data, ramen_idx) is None
                &&& rows(list@) == legal_list(
                    ints(state.feeling_stock),
                    state.special_feeling as int,
                    ints(data.recipe(ramen_idx as int)),
                )
            },
            Err(e) => recipe_fault(data, ramen_idx) == Some(e),
        },
{
    let recipe: [i32; 3] = match get_recipe(data, ramen_idx) {
        Ok(recipe) => *recipe,
        Err(e) => {
            return Err(e);
        },
    };
    let ghost stock = ints(state.feeling_stock);
    let ghost special = state.special_feeling as int;
    let ghost rec = ints(recipe);
    let ghost pred = |t: Seq<int>| legal_targets(stock, special, rec, t);
    let mut out: Vec<[i32; 3]> = Vec::new();
    let min_needed: [i32; 3] = match min_special_targets(state, &recipe) {
        Some(t) => t,
        None => {
            proof {
                lemma_filter_none(special_order(), pred);
            }
            assert(rows(out@) =~= Seq::<Seq<int>>::empty());
            return Ok(out);
        },
    };
    let order: [[i32; 3]; 10] = [
        [0, 0, 0],
        [0, 0, 1],
        [0, 1, 0],
        [1, 0, 0],
        [0, 0, 2],
        [0, 1, 1],
        [0, 2, 0],
        [1, 0, 1],
        [1, 1, 0],
        [2, 0, 0],
    ];
    assert forall|i: int| 0 <= i < 10 implies #[trigger] ints(order@[i]) == special_order()[i] by {
        assert(ints(order@[i]) =~= special_order()[i]);
    }
    let mut i: usize = 0;
    assert(special_order().take(0).filter(pred) =~= Seq::<Seq<int>>::empty()) by {
        reveal(Seq::filter);
    }
    while i < 10
        invariant
            i <= 10,
            stock == ints(state.feeling_stock),
            special == state.special_feeling as int,
            rec == ints(recipe),
            pred == (|t: Seq<int>| legal_targets(stock, special, rec, t)),
            recipe_ok(ints(recipe)),
            ints(min_needed) == gaps(ints(recipe), ints(state.feeling_stock)),
            forall|j: int| 0 <= j < 10 ==> #[trigger] ints(order@[j]) == special_order()[j],
            rows(out@) == special_order().take(i as int).filter(pred),
        decreases 10 - i,
    {
        let ghost before = out@;
        let t: [i32; 3] = order[i];
        assert(ints(order@[i as int]) == special_order()[i as int]);
        assert(ints(t)[0] == t@[0] && ints(t)[1] == t@[1] && ints(t)[2] == t@[2]);
        push_if_legal(state, &recipe, &min_needed, t, &mut out);
        proof {
            let pre = special_order().take(i as int);
            let next = special_order().take(i as int + 1);
            assert(next.drop_last() =~= pre);
            assert(next.last() == ints(t));
            reveal(Seq::filter);
            assert(next.filter(pred) == if pred(ints(t)) {
                pre.filter(pred).push(ints(t))
            } else {
                pre.filter(pred)
            });
            assert(rows(before.push(t)) =~= rows(before).push(ints(t)));
        }
        i = i + 1;
    }
    assert(special_order().take(10) =~= special_order());
    Ok(out)
}

proof fn lemma_filter_none(s: Seq<Seq<int>>, pred: spec_fn(Seq<int>) -> bool)
    requires
        forall|t: Seq<int>| !#[trigger] pred(t),
    ensures
        s.filter(pred) == Seq::<Seq<int>>::empty(),
    decreases s.len(),
{
    reveal(Seq::filter);
    if s.len() > 0 {
        lemma_filter_none(s.drop_last(), pred);
    }
}

/// The list holds exactly the legal choices.
pub proof fn law_legal_list_is_complete(stock: Seq<int>, special: int, recipe: Seq<int>, t: Seq<int>)
    requires
        stock.len() == 3,
        recipe.len() == 3,
    ensures
        legal_list(stock, special, recipe).contains(t) <==> legal_targets(stock, special, recipe, t),
{
    let pred = |u: Seq<int>| legal_targets(stock, special, recipe, u);
    broadcast use vstd::seq_lib::group_filter_ensures;

    if legal_targets(stock, special, recipe, t) {
        lemma_special_order_complete(t);
        let i = choose|i: int| 0 <= i < 10 && special_order()[i] == t;
        assert(special_order()[i] == t);
        assert(pred(special_order()[i]));
        assert(special_order().filter(pred).contains(special_order()[i]));
    }
    if legal_list(stock, special, recipe).contains(t) {
        let i = choose|i: int|
            0 <= i < legal_list(stock, special, recipe).len() && legal_list(stock, special, recipe)[i]
                == t;
        assert(pred(special_order().filter(pred)[i]));
    }
}

proof fn lemma_special_order_complete(t: Seq<int>)
    requires
        t.len() == 3,
        t[0] >= 0 && t[1] >= 0 && t[2] >= 0,
        sum3(t) <= 2,
    ensures
        exists|i: int| 0 <= i < 10 && special_order()[i] == t,
{
    let i: int = if t[0] == 0 {
        if t[1] == 0 {
            if t[2] == 0 {
                0
            } else if t[2] == 1 {
                1
            } else {
                4
            }
        } else if t[1] == 1 {
            if t[2] == 0 {
                2
            } else {
                5
            }
        } else {
            6
        }
    } else if t[0] == 1 {
        if t[1] == 0 {
            if t[2] == 0 {
                3
            } else {
                7
            }
        } else {
            8
        }
    } else {
        9
    };
    assert(special_order()[i] =~= t);
}

proof fn lemma_filter_sorted(n: int, pred: spec_fn(Seq<int>) -> bool)
    requires
        0 <= n <= 10,
    ensures
        forall|i: int, j: int|
            0 <= i <= j < special_order().take(n).filter(pred).len() ==> sum3(
                #[trigger] special_order().take(n).filter(pred)[i],
            ) <= sum3(#[trigger] special_order().take(n).filter(pred)[j]),
        forall|i: int|
            0 <= i < special_order().take(n).filter(pred).len() && 0 < n ==> sum3(
                #[trigger] special_order().take(n).filter(pred)[i],
            ) <= sum3(special_order()[n - 1]),
    decreases n,
{
    reveal(Seq::filter);
    if n > 0 {
        lemma_filter_sorted(n - 1, pred);
        let next = special_order().take(n);
        assert(next.drop_last() =~= special_order().take(n - 1));
        assert(n > 1 ==> sum3(special_order()[n - 2]) <= sum3(special_order()[n - 1]));
        let x = special_order()[n - 1];
        let f = next.filter(pred);
        let g = special_order().take(n - 1).filter(pred);
        assert(next.last() == x);
        assert(f == if pred(x) {
            g.push(x)
        } else {
            g
        });
        assert forall|i: int| 0 <= i < f.len() implies sum3(#[trigger] f[i]) <= sum3(x) by {
            if i < g.len() {
                assert(f[i] == g[i]);
                assert(n > 1) by {
                    if n == 1 {
                        assert(special_order().take(0) =~= Seq::<Seq<int>>::empty());
                    }
                }
            }
        }
        assert forall|i: int, j: int| 0 <= i <= j < f.len() implies sum3(#[trigger] f[i]) <= sum3(
            #[trigger] f[j],
        ) by {
            if j < g.len() {
                assert(f[i] == g[i] && f[j] == g[j]);
            }
        }
    }
}

/// The list is ordered by the number of hidden flavours used, and it starts with the choice that
/// just fills the gaps.
pub proof fn law_legal_list_starts_smallest(stock: Seq<int>, special: int, recipe: Seq<int>)
    requires
        stock.len() == 3,
        recipe.len() == 3,
    ensures
        forall|i: int, j: int|
            0 <= i <= j < legal_list(stock, special, recipe).len() ==> sum3(
                #[trigger] legal_list(stock, special, recipe)[i],
            ) <= sum3(#[trigger] legal_list(stock, special, recipe)[j]),
        legal_list(stock, special, recipe).len() > 0 ==> legal_list(stock, special, recipe)[0]
            == gaps(recipe, stock),
{
    let pred = |u: Seq<int>| legal_targets(stock, special, recipe, u);
    let list = legal_list(stock, special, recipe);
    assert(special_order().take(10) =~= special_order());
    lemma_filter_sorted(10, pred);
    if list.len() > 0 {
        let f = list[0];
        let m = gaps(recipe, stock);
        law_legal_list_is_complete(stock, special, recipe, f);
        assert(list.contains(f));
        assert(legal_targets(stock, special, recipe, m));
        law_legal_list_is_complete(stock, special, recipe, m);
        let i = choose|i: int| 0 <= i < list.len() && list[i] == m;
        assert(sum3(list[0]) <= sum3(list[i]));
        assert(f =~= m);
    }
}

// ========== Scenario points and settlements ==========

/// Points for a bowl: the base of the year, and its step for each of at most five earlier bowls.
pub open spec fn pt_gain(data: &RamenScenarioData, year_idx: int, eat_count: int) -> int {
    data.gain_pt_base@[year_idx] + data.gain_pt_delta@[year_idx] * if eat_count < 5 {
        eat_count
    } else {
        5
    }
}

/// Points for a bowl, given the bowls eaten earlier in the year.
pub fn calc_ramen_pt_gain(data: &RamenScenarioData, year_idx: usize, eat_count: i32) -> (r: Result<
    i32,
    SimError,
>)
    requires
        year_idx < data.gain_pt_base@.len() && year_idx < data.gain_pt_delta@.len()
            ==> i32::MIN <= pt_gain(data, year_idx as int, eat_count as int) <= i32::MAX,
        year_idx < data.gain_pt_base@.len() && year_idx < data.gain_pt_delta@.len()
            ==> i32::MIN <= pt_gain(data, year_idx as int, eat_count as int)
            - data.gain_pt_base@[year_idx as int] <= i32::MAX,
    ensures
        r == if year_idx < data.gain_pt_base@.len() && year_idx < data.gain_pt_delta@.len() {
            Ok::<i32, SimError>(pt_gain(data, year_idx as int, eat_count as int) as i32)
        } else {
            Err::<i32, SimError>(SimError::YearOutOfRange { year_idx })
        },
{
    if year_idx >= data.gain_pt_base.len() || year_idx >= data.gain_pt_delta.len() {
        return Err(SimError::YearOutOfRange { year_idx });
    }
    let bowls: i32 = eat_count.min(5);
    Ok(data.gain_pt_base[year_idx] + data.gain_pt_delta[year_idx] * bowls)
}

/// Outcome of a yearly settlement.
#[derive(Debug, Clone, Copy, PartialEq, Eq, Structural)]
pub enum RmjResult {
    Fail,
    Success,
    /// Third year only.
    GreatSuccess,
}

impl RmjResult {
    /// Whether the settlement succeeded, greatly or not.
    pub fn is_success(&self) -> (b: bool)
        ensures
            b == (*self != RmjResult::Fail),
    {
        match self {
            RmjResult::Fail => false,
            RmjResult::Success => true,
            RmjResult::GreatSuccess => true,
        }
    }

    /// Whether the settlement succeeded greatly.
    pub fn is_great_success(&self) -> (b: bool)
        ensures
            b == (*self == RmjResult::GreatSuccess),
    {
        match self {
            RmjResult::GreatSuccess => true,
            _ => false,
        }
    }
}

/// Points from which the settlement of the third year is a great success.
pub const GREAT_SUCCESS_PT: i32 = 5000;

/// The outcome that a number of points gives. A year without a threshold is judged by the
/// largest number there is.
pub open spec fn rmj_outcome(data: &RamenScenarioData, scenario_pt: int, year_idx: int) -> RmjResult {
    let threshold = if 0 <= year_idx < data.ramen_success_pt@.len() {
        data.ramen_success_pt@[year_idx]
    } else {
        i32::MAX
    };
    if scenario_pt < threshold {
        RmjResult::Fail
    } else if year_idx == 2 && scenario_pt >= GREAT_SUCCESS_PT {
        RmjResult::GreatSuccess
    } else {
        RmjResult::Success
    }
}

/// Settles a year: compares the points with the threshold and records the outcome.
pub fn check_rmj(data: &RamenScenarioData, state: &mut RamenState, year_idx: usize) -> (result: RmjResult)
    ensures
        result == rmj_outcome(data, old(state).scenario_pt as int, year_idx as int),
        final(state).rmj_results@ == old(state).rmj_results@.push(result != RmjResult::Fail),
        *final(state) == (RamenState { rmj_results: final(state).rmj_results, ..*old(state) }),
{
    let threshold: i32 = if year_idx < data.ramen_success_pt.len() {
        data.ramen_success_pt[year_idx]
    } else {
        i32::MAX
    };
    let result: RmjResult = if state.scenario_pt < threshold {
        RmjResult::Fail
    } else if year_idx == 2 && state.scenario_pt >= GREAT_SUCCESS_PT {
        RmjResult::GreatSuccess
    } else {
        RmjResult::Success
    };
    state.rmj_results.push(result.is_success());
    result
}

// ========== Regions ==========

/// First region of a year.
pub open spec fn region_first(year_idx: int) -> int {
    if year_idx == 0 {
        0
    } else if year_idx == 1 {
        5
    } else {
        10
    }
}

/// Last region of a year.
pub open spec fn region_last(year_idx: int) -> int {
    if year_idx == 0 {
        4
    } else if year_idx == 1 {
        9
    } else {
        19
    }
}

/// First and last region of a year.
fn region_bounds(year_idx: usize) -> (r: Option<(usize, usize)>)
    ensures
        r is Some <==> year_idx < 3,
        r matches Some(b) ==> b.0 == region_first(year_idx as int) && b.1 == region_last(
            year_idx as int,
        ),
{
    match year_idx {
        0 => Some((0, 4)),
        1 => Some((5, 9)),
        2 => Some((10, 19)),
        _ => None,
    }
}

/// The regions that can be picked for a year, in ascending order.
pub fn get_region_range(year_idx: usize) -> (r: Result<Vec<usize>, SimError>)
    ensures
        match r {
            Ok(list) => year_idx < 3 && list@ == Seq::new(
                (region_last(year_idx as int) - region_first(year_idx as int) + 1) as nat,
                |i: int| (region_first(year_idx as int) + i) as usize,
            ),
            Err(e) => year_idx >= 3 && e == (SimError::YearOutOfRange { year_idx }),
        },
{
    let (start, end): (usize, usize) = match region_bounds(year_idx) {
        Some(b) => b,
        None => {
            return Err(SimError::YearOutOfRange { year_idx });
        },
    };
    let mut list: Vec<usize> = Vec::new();
    let mut id: usize = start;
    while id <= end
        invariant
            start <= id <= end + 1,
            end <= 19,
            list@ == Seq::new((id - start) as nat, |i: int| (start + i) as usize),
        decreases end + 1 - id,
    {
        list.push(id);
        id = id + 1;
        assert(list@ =~= Seq::new((id - start) as nat, |i: int| (start + i) as usize));
    }
    Ok(list)
}

/// Three regions of a year in strictly ascending order.
pub open spec fn is_combination(year_idx: int, c: Seq<usize>) -> bool {
    &&& c.len() == 3
    &&& region_first(year_idx) <= c[0] < c[1] < c[2] <= region_last(year_idx)
}

/// Lexicographic order of triples.
pub open spec fn combo_before(a: Seq<usize>, b: Seq<usize>) -> bool {
    a[0] < b[0] || (a[0] == b[0] && (a[1] < b[1] || (a[1] == b[1] && a[2] < b[2])))
}

/// All choices of three regions of a year, in lexicographic order.
pub open spec fn is_combination_list(year_idx: int, list: Seq<[usize; 3]>) -> bool {
    &&& forall|i: int| 0 <= i < list.len() ==> is_combination(year_idx, (#[trigger] list[i])@)
    &&& forall|i: int, j: int|
        0 <= i < j < list.len() ==> combo_before((#[trigger] list[i])@, (#[trigger] list[j])@)
    &&& forall|c: Seq<usize>| #[trigger]
        is_combination(year_idx, c) ==> exists|i: int| 0 <= i < list.len() && (#[trigger] list[i])@ == c
}

/// How many choices of three regions a year has.
pub open spec fn combination_count(year_idx: int) -> int {
    if year_idx == 2 {
        120
    } else {
        10
    }
}

/// The number of choices of two out of `n`.
spec fn pairs(n: int) -> int
    decreases n,
{
    if n <= 0 {
        0
    } else {
        n - 1 + pairs(n - 1)
    }
}

/// The number of choices of three out of `n`.
spec fn triples(n: int) -> int
    decreases n,
{
    if n <= 0 {
        0
    } else {
        pairs(n - 1) + triples(n - 1)
    }
}

/// All choices of three regions of a year, each in ascending order: ten in the first and the second
/// year, a hundred and twenty in the third.
pub fn get_region_combinations(year_idx: usize) -> (r: Result<Vec<[usize; 3]>, SimError>)
    ensures
        match r {
            Ok(list) => year_idx < 3 && is_combination_list(year_idx as int, list@) && list@.len()
                == combination_count(year_idx as int),
            Err(e) => year_idx >= 3 && e == (SimError::YearOutOfRange { year_idx }),
        },
{
    let (start, end): (usize, usize) = match region_bounds(year_idx) {
        Some(b) => b,
        None => {
            return Err(SimError::YearOutOfRange { year_idx });
        },
    };
    let mut combos: Vec<[usize; 3]> = Vec::new();
    let mut i: usize = start;
    let ghost all = triples(end - start + 1);
    while i + 2 <= end
        invariant
            start <= i,
            i + 1 <= end,
            start == region_first(year_idx as int),
            end == region_last(year_idx as int),
            end <= 19,
            combos_upto(year_idx as int, combos@, seq![i, 0usize, 0usize]),
            combos@.len() + triples(end - i + 1) == all,
        decreases end - i,
    {
        let mut j: usize = i + 1;
        assert(combos_upto(year_idx as int, combos@, seq![i, j, 0usize])) by {
            lemma_combos_skip(
                year_idx as int,
                combos@,
                seq![i, 0usize, 0usize],
                seq![i, j, 0usize],
            );
        }
        while j + 1 <= end
            invariant
                start <= i < j <= end,
                start == region_first(year_idx as int),
                end == region_last(year_idx as int),
                end <= 19,
                combos_upto(year_idx as int, combos@, seq![i, j, 0usize]),
                combos@.len() + pairs(end - j + 1) + triples(end - i) == all,
            decreases end - j,
        {
            let mut k: usize = j + 1;
            assert(combos_upto(year_idx as int, combos@, seq![i, j, k])) by {
                lemma_combos_skip(
                    year_idx as int,
                    combos@,
                    seq![i, j, 0usize],
                    seq![i, j, k],
                );
            }
            while k <= end
                invariant
                    start <= i < j < k <= end + 1,
                    start == region_first(year_idx as int),
                    end == region_last(year_idx as int),
                    end <= 19,
                    combos_upto(year_idx as int, combos@, seq![i, j, k]),
                    combos@.len() + (end + 1 - k) + pairs(end - j) + triples(end - i) == all,
                decreases end + 1 - k,
            {
                let ghost before = combos@;
                let c: [usize; 3] = [i, j, k];
                combos.push(c);
                assert(c@ =~= seq![i, j, k]);
                proof {
                    lemma_combos_push(year_idx as int, before, c, seq![i, j, (k + 1) as usize]);
                }
                k = k + 1;
            }
            assert(combos_upto(year_idx as int, combos@, seq![i, (j + 1) as usize, 0usize])) by {
                lemma_combos_skip(
                    year_idx as int,
                    combos@,
                    seq![i, j, k],
                    seq![i, (j + 1) as usize, 0usize],
                );
            }
            j = j + 1;
        }
        assert(combos_upto(year_idx as int, combos@, seq![(i + 1) as usize, 0usize, 0usize])) by {
            lemma_combos_skip(
                year_idx as int,
                combos@,
                seq![i, j, 0usize],
                seq![(i + 1) as usize, 0usize, 0usize],
            );
        }
        assert(pairs(0) == 0);
        assert(pairs(1) == 0 + pairs(0));
        i = i + 1;
    }
    proof {
        reveal_with_fuel(pairs, 11);
        reveal_with_fuel(triples, 11);
    }
    Ok(combos)
}

/// The list holds, in order, exactly the combinations before `bound`.
spec fn combos_upto(year_idx: int, list: Seq<[usize; 3]>, bound: Seq<usize>) -> bool {
    &&& forall|i: int|
        0 <= i < list.len() ==> is_combination(year_idx, (#[trigger] list[i])@) && combo_before(
            list[i]@,
            bound,
        )
    &&& forall|i: int, j: int|
        0 <= i < j < list.len() ==> combo_before((#[trigger] list[i])@, (#[trigger] list[j])@)
    &&& forall|c: Seq<usize>| #[trigger]
        is_combination(year_idx, c) && combo_before(c, bound) ==> exists|i: int|
            0 <= i < list.len() && (#[trigger] list[i])@ == c
}

proof fn lemma_combos_skip(year_idx: int, list: Seq<[usize; 3]>, a: Seq<usize>, b: Seq<usize>)
    requires
        combos_upto(year_idx, list, a),
        a.len() == 3,
        b.len() == 3,
        forall|c: Seq<usize>| #[trigger]
            is_combination(year_idx, c) ==> (combo_before(c, a) <==> combo_before(c, b)),
    ensures
        combos_upto(year_idx, list, b),
{
}

proof fn lemma_combos_push(year_idx: int, list: Seq<[usize; 3]>, c: [usize; 3], b: Seq<usize>)
    requires
        combos_upto(year_idx, list, c@),
        is_combination(year_idx, c@),
        b.len() == 3,
        b[0] == c@[0],
        b[1] == c@[1],
        b[2] == c@[2] + 1,
    ensures
        combos_upto(year_idx, list.push(c), b),
{
    let next = list.push(c);
    assert forall|d: Seq<usize>| #[trigger]
        is_combination(year_idx, d) && combo_before(d, b) implies exists|i: int|
        0 <= i < next.len() && (#[trigger] next[i])@ == d by {
        if combo_before(d, c@) {
            let i = choose|i: int| 0 <= i < list.len() && (#[trigger] list[i])@ == d;
            assert(next[i]@ == d);
        } else {
            assert(d =~= c@);
            assert(next[list.len() as int]@ == d);
        }
    }
}

/// Three regions form a legal pick for a year: all of that year, no two alike.
pub open spec fn legal_pick(year_idx: int, s: Seq<usize>) -> bool {
    &&& 0 <= year_idx < 3
    &&& forall|i: int|
        0 <= i < 3 ==> region_first(year_idx) <= #[trigger] s[i] <= region_last(year_idx)
    &&& s[0] != s[1]
    &&& s[0] != s[2]
    &&& s[1] != s[2]
}

/// Whether three regions form a legal pick for a year: all of that year, no two alike.
pub fn validate_region_selection(year_idx: usize, selections: &[usize; 3]) -> (ok: bool)
    ensures
        ok == legal_pick(year_idx as int, selections@),
{
    let (start, end): (usize, usize) = match region_bounds(year_idx) {
        Some(b) => b,
        None => {
            return false;
        },
    };
    let inside: bool = selections[0] >= start && selections[0] <= end && selections[1] >= start
        && selections[1] <= end && selections[2] >= start && selections[2] <= end;
    assert(inside == (forall|i: int| 0 <= i < 3 ==> start <= #[trigger] selections@[i] <= end)) by {
        assert(inside == (start <= selections@[0] <= end && start <= selections@[1] <= end && start
            <= selections@[2] <= end));
    }
    inside && selections[0] != selections[1] && selections[0] != selections[2] && selections[1]
        != selections[2]
}

/// Every combination that is listed for a year is a legal pick.
pub proof fn law_combinations_are_legal_picks(year_idx: int, list: Seq<[usize; 3]>, i: int)
    requires
        0 <= year_idx < 3,
        is_combination_list(year_idx, list),
        0 <= i < list.len(),
    ensures
        legal_pick(year_idx, list[i]@),
{
    assert(is_combination(year_idx, list[i]@));
}

/// Every legal pick for a year is listed, with its regions in ascending order.
pub proof fn law_legal_picks_are_listed(year_idx: int, list: Seq<[usize; 3]>, pick: [usize; 3])
    requires
        is_combination_list(year_idx, list),
        legal_pick(year_idx, pick@),
    ensures
        exists|i: int|
            0 <= i < list.len() && same_regions((#[trigger] list[i])@, pick@),
{
    let a = pick@[0];
    let b = pick@[1];
    let c = pick@[2];
    let sorted: Seq<usize> = if a < b && b < c {
        seq![a, b, c]
    } else if a < c && c < b {
        seq![a, c, b]
    } else if b < a && a < c {
        seq![b, a, c]
    } else if b < c && c < a {
        seq![b, c, a]
    } else if c < a && a < b {
        seq![c, a, b]
    } else {
        seq![c, b, a]
    };
    assert(is_combination(year_idx, sorted));
    let i = choose|i: int| 0 <= i < list.len() && (#[trigger] list[i])@ == sorted;
    assert(same_regions(list[i]@, pick@)) by {
        assert(sorted[0] == list[i]@[0] && sorted[1] == list[i]@[1] && sorted[2] == list[i]@[2]);
        assert forall|r: usize| list[i]@.contains(r) == pick@.contains(r) by {
            assert(pick@.contains(a) && pick@.contains(b) && pick@.contains(c));
            assert(list[i]@.contains(sorted[0]) && list[i]@.contains(sorted[1])
                && list[i]@.contains(sorted[2]));
        }
    }
}

/// Two triples hold the same regions.
pub open spec fn same_regions(a: Seq<usize>, b: Seq<usize>) -> bool {
    forall|r: usize| a.contains(r) == b.contains(r)
}

// ========== Hidden flavours and region bonus ==========

/// Hidden flavours gained at the start of a turn.
pub open spec fn turn_special(turn: int) -> int {
    if turn == 2 || turn == 24 || turn == 36 || turn == 48 || turn == 60 {
        2
    } else if 37 <= turn <= 39 || 61 <= turn <= 63 {
        1
    } else {
        0
    }
}

/// Hidden flavours gained at the start of a turn.
pub fn get_turn_special_feeling(turn: i32) -> (n: i32)
    ensures
        n == turn_special(turn as int),
{
    match turn {
        2 | 24 | 36 | 48 | 60 => 2,
        37 | 38 | 39 | 61 | 62 | 63 => 1,
        _ => 0,
    }
}

/// Tier of the region bonus: one per 300 points of the year, five at most.
pub open spec fn bonus_tier(scenario_pt: int) -> int {
    if scenario_pt < 0 {
        0
    } else if scenario_pt / 300 < 5 {
        scenario_pt / 300
    } else {
        5
    }
}

/// Region bonus by the points of the year. A year that is three hundred points or more below zero
/// has no tier.
pub fn calc_region_bonus(scenario_pt: i32) -> (bonus: i32)
    requires
        scenario_pt > -300,
    ensures
        bonus == seq![0int, 3, 5, 7, 9, 10][bonus_tier(scenario_pt as int)],
{
    match scenario_pt / 300 {
        0 => 0,
        1 => 3,
        2 => 5,
        3 => 7,
        4 => 9,
        _ => 10,
    }
}

// ========== Clones ==========

/// The trainings at which the ramen of a region places clones.
pub fn get_region_clone_trains(data: &RamenScenarioData, region_id: usize) -> (r: Result<
    Vec<i32>,
    SimError,
>)
    ensures
        match r {
            Ok(trains) => region_id < data.ramen_region_effect@.len() && trains@
                == data.ramen_region_effect@[region_id as int].at_trains@,
            Err(e) => region_id >= data.ramen_region_effect@.len() && e == (
            SimError::RegionOutOfRange { region_id }),
        },
{
    if region_id >= data.ramen_region_effect.len() {
        return Err(SimError::RegionOutOfRange { region_id });
    }
    Ok(data.ramen_region_effect[region_id].at_trains.clone())
}

/// For every option of the super ramen the trainings at which clones may appear.
pub fn get_super_ramen_clone_train_options(data: &RamenScenarioData) -> (r: Result<
    &Vec<Vec<i32>>,
    SimError,
>)
    ensures
        r matches Ok(options) && *options == data.finals_effect.training_limit_options,
{
    Ok(&data.finals_effect.training_limit_options)
}

/// The characters of the five NPCs.
pub const NPC_CHARA_IDS: [u32; 5] = [1022, 1058, 1060, 1077, 1120];

/// A gauge that reaches seven starts anew from zero and turns into one feeling point of its kind, the
/// newest of the queue; below that the amount just adds up and nothing is gained. With ten points in
/// stock the oldest makes room.
pub proof fn law_full_gauge_becomes_a_point(k: Kitchen, ft: FeelingType, amount: int)
    requires
        k.shaped(),
        k.consistent(),
        k.queue.len() <= 10,
        0 <= k.year < 3,
    ensures
        ({
            let i = ft.idx();
            let after = k.gauge(ft, amount);
            &&& k.slot[i] + amount < 7 ==> {
                &&& after.slot == k.slot.update(i, k.slot[i] + amount)
                &&& after.stock == k.stock
                &&& after.queue == k.queue
                &&& after.gained == k.gained
                &&& after.dropped == k.dropped
            }
            &&& k.slot[i] + amount >= 7 ==> {
                &&& after.slot == k.slot.update(i, 0)
                &&& after.gained == k.gained.update(k.year, k.gained[k.year] + 1)
                &&& after.queue.last() == ft
                &&& k.queue.len() < 10 ==> after.queue == k.queue.push(ft) && after.stock
                    =~= k.stock.update(i, k.stock[i] + 1) && after.dropped[k.year]
                    == k.dropped[k.year]
                &&& k.queue.len() == 10 ==> after.queue == k.queue.drop_first().push(ft)
                    && after.queue.len() == 10 && after.dropped[k.year] == k.dropped[k.year] + 1
            }
            &&& after.consistent()
        }),
{
    let i = ft.idx();
    if k.slot[i] + amount >= 7 {
        let e = Kitchen { slot: k.slot.update(i, 0), ..k };
        let g = e.gain(ft, 1);
        assert(e.consistent());
        law_gain_keeps_newest(e, ft, 1);
        lemma_gain_sums(e, ft, 1);
        lemma_count_total(k.queue);
        lemma_count_total(g.queue);
        assert(sum3(k.stock) == k.queue.len());
        assert(k.queue + Seq::new(1 as nat, |j: int| ft) =~= k.queue.push(ft));
        if k.queue.len() < 10 {
            assert(g.queue == k.queue.push(ft));
            lemma_count_push(k.queue, ft, 0);
            lemma_count_push(k.queue, ft, 1);
            lemma_count_push(k.queue, ft, 2);
            assert(g.stock.len() == 3);
            assert(g.stock =~= k.stock.update(i, k.stock[i] + 1));
        } else {
            assert(k.queue.push(ft).skip(1) =~= k.queue.drop_first().push(ft));
        }
    }
}

/// After a training outside the summer camp each gauge holds what it held and the year's share, or
/// starts anew where that reaches seven; the kind shown at the training gets the training's bonus on
/// top in the same way. A friendship training then adds two to every gauge, up to seven.
pub proof fn law_training_fills_the_gauges(
    k: Kitchen,
    base: Seq<int>,
    shown: FeelingType,
    bonus: int,
    i: int,
)
    requires
        k.slot.len() == 3,
        0 <= i < 3,
    ensures
        ({
            let share = if k.slot[i] + base[i] >= 7 {
                0
            } else {
                k.slot[i] + base[i]
            };
            let level = if i == shown.idx() {
                if share + bonus >= 7 {
                    0
                } else {
                    share + bonus
                }
            } else {
                share
            };
            &&& k.after_train(base, shown, bonus, false, false).slot[i] == level
            &&& k.after_train(base, shown, bonus, true, false).slot[i] == if level + 2 >= 7 {
                7
            } else {
                level + 2
            }
            &&& k.after_non_train(base, false).slot[i] == share
            &&& k.after_train(base, shown, bonus, true, false).queue == k.after_train(
                base,
                shown,
                bonus,
                false,
                false,
            ).queue
        }),
{
    let k1 = k.gauge(FeelingType::A, base[0]);
    let k2 = k1.gauge(FeelingType::B, base[1]);
    let k3 = k2.gauge(FeelingType::C, base[2]);
    lemma_gauge_slot(k, FeelingType::A, base[0]);
    lemma_gauge_slot(k1, FeelingType::B, base[1]);
    lemma_gauge_slot(k2, FeelingType::C, base[2]);
    lemma_gauge_slot(k3, shown, bonus);
}

/// In the summer camp each gauge below seven is filled up: one point of each such kind is gained, in
/// the order of the kinds.
pub proof fn law_summer_camp_gives_each_kind(k: Kitchen, base: Seq<int>)
    requires
        k.shaped(),
        k.consistent(),
        k.queue.len() <= 7,
        0 <= k.year < 3,
        k.slot[0] < 7 && k.slot[1] < 7 && k.slot[2] < 7,
    ensures
        k.after_non_train(base, true).queue == k.queue.push(FeelingType::A).push(
            FeelingType::B,
        ).push(FeelingType::C),
        k.after_non_train(base, true).slot =~= seq![0int, 0, 0],
        k.after_non_train(base, true).gained[k.year] == k.gained[k.year] + 3,
{
    law_full_gauge_becomes_a_point(k, FeelingType::A, 7 - k.slot[0]);
    let ka = k.maxed(FeelingType::A);
    lemma_gain_sums(
        (Kitchen { slot: k.slot.update(0, 0), ..k }),
        FeelingType::A,
        1,
    );
    law_full_gauge_becomes_a_point(ka, FeelingType::B, 7 - ka.slot[1]);
    let kb = ka.maxed(FeelingType::B);
    lemma_gain_sums(
        (Kitchen { slot: ka.slot.update(1, 0), ..ka }),
        FeelingType::B,
        1,
    );
    law_full_gauge_becomes_a_point(kb, FeelingType::C, 7 - kb.slot[2]);
}

/// Where rounding each kind's part of the ten points to the nearest gives ten in all, that is how the
/// points are shared out. A kind that the three recipes ask for once gets one point; the others share
/// the rest by what the recipes ask for.
pub proof fn law_points_follow_the_recipes(c: Seq<int>, r: Seq<int>)
    requires
        c.len() == 3,
        r.len() == 3,
        c[0] >= 0 && c[1] >= 0 && c[2] >= 0,
        r[0] + r[1] + r[2] == 10,
        ({
            let ones = (if c[0] == 1 {
                1int
            } else {
                0
            }) + (if c[1] == 1 {
                1int
            } else {
                0
            }) + (if c[2] == 1 {
                1int
            } else {
                0
            });
            let rest = c[0] + c[1] + c[2] - ones;
            &&& rest > 0
            &&& forall|i: int|
                0 <= i < 3 ==> if #[trigger] c[i] == 1 {
                    r[i] == 1
                } else {
                    2 * (c[i] * (10 - ones)) - rest < 2 * r[i] * rest <= 2 * (c[i] * (10 - ones))
                        + rest
                }
        }),
    ensures
        base_points(c) =~= r,
{
    lemma_shares_are(c, r);
}

proof fn lemma_shares_are(c: Seq<int>, r: Seq<int>)
    requires
        c.len() == 3,
        r.len() == 3,
        ({
            let ones = fixed_part(c[0]) + fixed_part(c[1]) + fixed_part(c[2]);
            let rest = c[0] + c[1] + c[2] - ones;
            &&& rest > 0
            &&& forall|i: int|
                0 <= i < 3 ==> if #[trigger] c[i] == 1 {
                    r[i] == 1
                } else {
                    2 * (c[i] * (10 - ones)) - rest < 2 * r[i] * rest <= 2 * (c[i] * (10 - ones))
                        + rest
                }
        }),
    ensures
        base_shares(c) =~= r,
{
    let p = open_points(c);
    let t = open_total(c);
    assert forall|i: int| 0 <= i < 3 implies base_share(c, i) == #[trigger] r[i] by {
        if c[i] != 1 {
            lemma_nearest(c[i] * p, t, r[i]);
        }
    }
}

/// Where rounding each kind's part leaves one point over, the kind with the fewest points gets it; where
/// it gives one too many, the kind with the most loses one. Of several such kinds the one that the
/// recipes ask for most gets it and the one they ask for least loses one, and of equal ones the first
/// gets it and the last loses one. Kinds that are asked for once keep their one point.
pub proof fn law_odd_point_evens_out(c: Seq<int>, r: Seq<int>, b: int)
    requires
        c.len() == 3,
        r.len() == 3,
        c[0] >= 0 && c[1] >= 0 && c[2] >= 0,
        0 <= b < 3,
        c[b] != 1,
        ({
            let ones = (if c[0] == 1 {
                1int
            } else {
                0
            }) + (if c[1] == 1 {
                1int
            } else {
                0
            }) + (if c[2] == 1 {
                1int
            } else {
                0
            });
            let rest = c[0] + c[1] + c[2] - ones;
            &&& rest > 0
            &&& forall|i: int|
                0 <= i < 3 ==> if #[trigger] c[i] == 1 {
                    r[i] == 1
                } else {
                    2 * (c[i] * (10 - ones)) - rest < 2 * r[i] * rest <= 2 * (c[i] * (10 - ones))
                        + rest
                }
        }),
    ensures
        r[0] + r[1] + r[2] == 9 && (forall|i: int|
            0 <= i < 3 && #[trigger] c[i] != 1 && i != b ==> r[b] < r[i] || (r[b] == r[i] && (c[b]
                > c[i] || (c[b] == c[i] && b < i)))) ==> base_points(c) =~= r.update(b, r[b] + 1),
        r[0] + r[1] + r[2] == 11 && (forall|i: int|
            0 <= i < 3 && #[trigger] c[i] != 1 && i != b ==> r[b] > r[i] || (r[b] == r[i] && (c[b]
                < c[i] || (c[b] == c[i] && b > i)))) ==> base_points(c) =~= r.update(b, r[b] - 1),
{
    lemma_shares_are(c, r);
    let s = base_shares(c);
    assert(s =~= r);
    reveal_with_fuel(topped_up, 3);
    reveal_with_fuel(cut_down, 3);
    assert(!all_fixed(c));
    if r[0] + r[1] + r[2] == 9 && (forall|i: int|
        0 <= i < 3 && #[trigger] c[i] != 1 && i != b ==> r[b] < r[i] || (r[b] == r[i] && (c[b] > c[i]
            || (c[b] == c[i] && b < i)))) {
        assert(is_neediest(s, c, b));
        lemma_neediest_unique(s, c, b);
    }
    if r[0] + r[1] + r[2] == 11 && (forall|i: int|
        0 <= i < 3 && #[trigger] c[i] != 1 && i != b ==> r[b] > r[i] || (r[b] == r[i] && (c[b] < c[i]
            || (c[b] == c[i] && b > i)))) {
        assert(is_richest(s, c, b));
        lemma_richest_unique(s, c, b);
    }
}

/// Hidden flavours are offered with fewer before more, and among as many in ascending order, the first
/// kind weighing most.
pub proof fn law_order_of_flavours(stock: Seq<int>, special: int, recipe: Seq<int>, i: int, j: int)
    requires
        0 <= i < j < legal_list(stock, special, recipe).len(),
    ensures
        ({
            let a = legal_list(stock, special, recipe)[i];
            let b = legal_list(stock, special, recipe)[j];
            let (x, y) = (a[0] + a[1] + a[2], b[0] + b[1] + b[2]);
            x < y || (x == y && (a[0] < b[0] || (a[0] == b[0] && (a[1] < b[1] || (a[1] == b[1] && a[2]
                < b[2])))))
        }),
{
    let f = |t: Seq<int>| legal_targets(stock, special, recipe, t);
    lemma_filter_keeps_order(special_order(), f);
    assert(flavours_before(
        legal_list(stock, special, recipe)[i],
        legal_list(stock, special, recipe)[j],
    ));
}

spec fn flavours_before(a: Seq<int>, b: Seq<int>) -> bool {
    sum3(a) < sum3(b) || (sum3(a) == sum3(b) && (a[0] < b[0] || (a[0] == b[0] && (a[1] < b[1] || (
    a[1] == b[1] && a[2] < b[2])))))
}

proof fn lemma_filter_keeps_order(s: Seq<Seq<int>>, f: spec_fn(Seq<int>) -> bool)
    requires
        forall|i: int, j: int|
            0 <= i < j < s.len() ==> flavours_before(#[trigger] s[i], #[trigger] s[j]),
    ensures
        forall|i: int, j: int|
            0 <= i < j < s.filter(f).len() ==> flavours_before(
                #[trigger] s.filter(f)[i],
                #[trigger] s.filter(f)[j],
            ),
        forall|i: int|
            0 <= i < s.filter(f).len() ==> exists|k: int|
                0 <= k < s.len() && #[trigger] s[k] == #[trigger] s.filter(f)[i],
    decreases s.len(),
{
    reveal(Seq::filter);
    if s.len() > 0 {
        let rest = s.drop_last();
        assert forall|i: int, j: int| 0 <= i < j < rest.len() implies flavours_before(
            #[trigger] rest[i],
            #[trigger] rest[j],
        ) by {
            assert(rest[i] == s[i] && rest[j] == s[j]);
        }
        lemma_filter_keeps_order(rest, f);
        let kept = rest.filter(f);
        let all = s.filter(f);
        assert forall|i: int| 0 <= i < all.len() implies exists|k: int|
            0 <= k < s.len() && #[trigger] s[k] == #[trigger] all[i] by {
            if i < kept.len() {
                let k = choose|k: int| 0 <= k < rest.len() && #[trigger] rest[k] == kept[i];
                assert(s[k] == all[i]);
            } else {
                assert(s[s.len() - 1] == all[i]);
            }
        }
        assert forall|i: int, j: int| 0 <= i < j < all.len() implies flavours_before(
            #[trigger] all[i],
            #[trigger] all[j],
        ) by {
            if j < kept.len() {
                assert(flavours_before(kept[i], kept[j]));
            } else {
                let k = choose|k: int| 0 <= k < rest.len() && #[trigger] rest[k] == kept[i];
                assert(s[k] == kept[i]);
                assert(flavours_before(s[k], s[s.len() - 1]));
            }
        }
    }
}

proof fn lemma_nearest(a: int, b: int, r: int)
    requires
        b > 0,
        2 * a - b < 2 * r * b <= 2 * a + b,
    ensures
        nearest(a, b) == r,
{
    let rem = 2 * a + b - 2 * b * r;
    assert(2 * b * r == 2 * r * b) by (nonlinear_arith);
    assert(0 <= rem < 2 * b);
    vstd::arithmetic::div_mod::lemma_fundamental_div_mod_converse(2 * a + b, 2 * b, r, rem);
}

/// Of two kinds that the recipes ask for more than once or not at all, the one that they ask for more
/// never gets fewer points.
pub proof fn law_more_asked_more_points(c: Seq<int>, i: int, j: int)
    requires
        c.len() == 3,
        c[0] >= 0 && c[1] >= 0 && c[2] >= 0,
        0 <= i < 3,
        0 <= j < 3,
        c[i] != 1,
        c[j] != 1,
        c[i] <= c[j],
        c[i] == c[j] ==> j < i,
    ensures
        base_points(c)[i] <= base_points(c)[j],
{
    let p = open_points(c);
    let t = open_total(c);
    let r = base_shares(c);
    if t > 0 {
        lemma_nearest_grows(c[i], c[j], p, t);
    }
    assert(r[i] == base_share(c, i) && r[j] == base_share(c, j));
    if sum3(r) <= 10 {
        lemma_topped_up_ordered(r, c, 10 - sum3(r), i, j);
    } else {
        lemma_cut_down_ordered(r, c, sum3(r) - 10, i, j);
    }
}

proof fn lemma_nearest_grows(a: int, b: int, p: int, t: int)
    requires
        0 <= a <= b,
        p >= 0,
        t > 0,
    ensures
        nearest(a * p, t) <= nearest(b * p, t),
{
    assert(a * p <= b * p) by (nonlinear_arith)
        requires
            0 <= a <= b,
            p >= 0,
    ;
    vstd::arithmetic::div_mod::lemma_div_is_ordered(2 * (a * p) + t, 2 * (b * p) + t, 2 * t);
}

proof fn lemma_topped_up_ordered(r: Seq<int>, c: Seq<int>, spare: int, i: int, j: int)
    requires
        r.len() == 3,
        c.len() == 3,
        0 <= i < 3,
        0 <= j < 3,
        c[i] != 1,
        c[j] != 1,
        c[i] <= c[j],
        c[i] == c[j] ==> j < i,
        r[i] <= r[j],
    ensures
        topped_up(r, c, spare)[i] <= topped_up(r, c, spare)[j],
    decreases spare,
{
    if spare > 0 && !all_fixed(c) {
        lemma_neediest_exists(r, c);
        let b = neediest(r, c);
        lemma_topped_up_ordered(r.update(b, r[b] + 1), c, spare - 1, i, j);
    }
}

proof fn lemma_richest_exists(r: Seq<int>, c: Seq<int>)
    requires
        !all_fixed(c),
    ensures
        is_richest(r, c, richest(r, c)),
{
    let b01 = if c[0] == 1 {
        1int
    } else if c[1] == 1 {
        0
    } else if r[0] > r[1] || (r[0] == r[1] && c[0] < c[1]) {
        0
    } else {
        1
    };
    let b = if c[b01] == 1 {
        2int
    } else if c[2] == 1 {
        b01
    } else if r[b01] > r[2] || (r[b01] == r[2] && c[b01] < c[2]) {
        b01
    } else {
        2
    };
    assert(is_richest(r, c, b));
}

proof fn lemma_cut_down_ordered(r: Seq<int>, c: Seq<int>, excess: int, i: int, j: int)
    requires
        r.len() == 3,
        c.len() == 3,
        0 <= i < 3,
        0 <= j < 3,
        c[i] != 1,
        c[j] != 1,
        c[i] <= c[j],
        c[i] == c[j] ==> j < i,
        r[i] <= r[j],
    ensures
        cut_down(r, c, excess)[i] <= cut_down(r, c, excess)[j],
    decreases excess,
{
    if excess > 0 && !all_fixed(c) {
        lemma_richest_exists(r, c);
        let b = richest(r, c);
        lemma_cut_down_ordered(r.update(b, r[b] - 1), c, excess - 1, i, j);
    }
}

/// With ten recipes the regions of the third year, ten and up, use the recipes of the first two years
/// once more.
pub proof fn law_third_year_reuses_recipes(data: &RamenScenarioData, region: int)
    requires
        data.region_feeling@.len() == 10,
        0 <= region < 10,
    ensures
        data.recipe(region) == data.region_feeling@[region],
        data.recipe(region + 10) == data.region_feeling@[region],
{
}

/// A settlement fails below the points of its year and succeeds from them on. Only the third year
/// knows a great success, from five thousand points on.
pub proof fn law_settlement_thresholds(data: &RamenScenarioData, scenario_pt: int, year_idx: int)
    requires
        0 <= year_idx < data.ramen_success_pt@.len(),
    ensures
        rmj_outcome(data, scenario_pt, year_idx) == RmjResult::Fail <==> scenario_pt
            < data.ramen_success_pt@[year_idx],
        rmj_outcome(data, scenario_pt, year_idx) == RmjResult::GreatSuccess <==> year_idx == 2
            && scenario_pt >= 5000 && scenario_pt >= data.ramen_success_pt@[year_idx],
{
}

/// The first bowl of a year earns the base of the year, and each of the next five earns the rise of
/// the year more than the one before; later bowls earn no more than the sixth.
pub proof fn law_bowls_earn_more_up_to_the_sixth(
    data: &RamenScenarioData,
    year_idx: int,
    eaten: int,
)
    requires
        0 <= eaten,
    ensures
        pt_gain(data, year_idx, 0) == data.gain_pt_base@[year_idx],
        eaten < 5 ==> pt_gain(data, year_idx, eaten + 1) == pt_gain(data, year_idx, eaten)
            + data.gain_pt_delta@[year_idx],
        eaten >= 5 ==> pt_gain(data, year_idx, eaten + 1) == pt_gain(data, year_idx, eaten),
{
    let d = data.gain_pt_delta@[year_idx] as int;
    assert(d * 0 == 0) by (nonlinear_arith);
    assert(d * (eaten + 1) == d * eaten + d) by (nonlinear_arith);
}

/// The regions of the first year are zero to four, of the second five to nine, of the third ten to
/// nineteen; a pick takes three different ones.
pub proof fn law_regions_by_year(s: Seq<usize>)
    requires
        s.len() == 3,
    ensures
        legal_pick(0, s) <==> s[0] < 5 && s[1] < 5 && s[2] < 5 && s[0] != s[1] && s[0] != s[2]
            && s[1] != s[2],
        legal_pick(1, s) <==> 5 <= s[0] < 10 && 5 <= s[1] < 10 && 5 <= s[2] < 10 && s[0] != s[1]
            && s[0] != s[2] && s[1] != s[2],
        legal_pick(2, s) <==> 10 <= s[0] < 20 && 10 <= s[1] < 20 && 10 <= s[2] < 20 && s[0] != s[1]
            && s[0] != s[2] && s[1] != s[2],
        !legal_pick(3, s),
{
    assert(s[0] == s[0] && s[1] == s[1] && s[2] == s[2]);
}

/// Hidden flavours come on turn two, with each new year and with each summer camp: two at first, and
/// one on every further turn of the camp.
pub proof fn law_hidden_flavours_by_turn(turn: int)
    ensures
        turn_special(turn) == 2 <==> turn == 2 || turn == 24 || turn == 48 || turn == 36 || turn == 60,
        turn_special(turn) == 1 <==> 36 < turn <= 39 || 60 < turn <= 63,
        turn_special(turn) != 2 && turn_special(turn) != 1 ==> turn_special(turn) == 0,
{
}

/// The region bonus has a tier for every three hundred points, and no more after fifteen hundred.
pub proof fn law_bonus_tier_by_points(scenario_pt: int)
    ensures
        scenario_pt < 300 ==> bonus_tier(scenario_pt) == 0,
        0 <= scenario_pt < 1200 ==> bonus_tier(scenario_pt + 300) == bonus_tier(scenario_pt) + 1,
        scenario_pt >= 1500 ==> bonus_tier(scenario_pt) == 5,
        1200 <= scenario_pt < 1500 ==> bonus_tier(scenario_pt) == 4,
{
}

/// Hidden flavours are legal where they fill exactly the gaps or more: with stocks that are not
/// negative, each kind is made up for and none beyond the recipe, two in all at most and no more than
/// there are.
pub proof fn law_legal_flavours(stock: Seq<int>, special: int, recipe: Seq<int>, t: Seq<int>)
    requires
        stock.len() == 3,
        recipe.len() == 3,
        t.len() == 3,
        stock[0] >= 0 && stock[1] >= 0 && stock[2] >= 0,
    ensures
        legal_list(stock, special, recipe).contains(t) <==> {
            &&& 0 <= t[0] <= recipe[0] && 0 <= t[1] <= recipe[1] && 0 <= t[2] <= recipe[2]
            &&& stock[0] + t[0] >= recipe[0]
            &&& stock[1] + t[1] >= recipe[1]
            &&& stock[2] + t[2] >= recipe[2]
            &&& t[0] + t[1] + t[2] <= 2
            &&& t[0] + t[1] + t[2] <= special
        },
{
    law_legal_list_is_complete(stock, special, recipe, t);
}

/// A bowl is refused exactly where its region does not exist, its recipe does not cost five points,
/// the hidden flavours are more than two, negative or beyond the recipe, or something is short.
pub proof fn law_bowl_is_made_iff(
    data: &RamenScenarioData,
    state: &RamenState,
    r: usize,
    t: Seq<int>,
)
    requires
        t.len() == 3,
    ensures
        consume_fault(data, state, r, t) is None <==> {
            let recipe = data.recipe(r as int)@;
            &&& r < 20
            &&& recipe[0] + recipe[1] + recipe[2] == 5
            &&& t[0] + t[1] + t[2] <= 2
            &&& t[0] + t[1] + t[2] <= state.special_feeling
            &&& 0 <= t[0] <= recipe[0] && 0 <= t[1] <= recipe[1] && 0 <= t[2] <= recipe[2]
            &&& state.feeling_stock@[0] + t[0] >= recipe[0]
            &&& state.feeling_stock@[1] + t[1] >= recipe[1]
            &&& state.feeling_stock@[2] + t[2] >= recipe[2]
        },
        consume_fault(data, state, r, t) matches Some(SimError::FeelingShort { index, need, have })
            ==> index < 3 && have == state.feeling_stock@[index as int],
        consume_fault(data, state, r, t) matches Some(SimError::SpecialShort { need, have }) ==> have
            == state.special_feeling && t[0] + t[1] + t[2] > state.special_feeling,
        consume_fault(data, state, r, t) matches Some(SimError::SpecialTotal { total }) ==> t[0]
            + t[1] + t[2] > 2,
{
    law_consume_succeeds_iff(data, state, r, t);
    reveal_with_fuel(stock_fault_from, 4);
    reveal_with_fuel(targets_fault_from, 4);
}

/// Eating takes the oldest point of a kind: where one point of one kind is due, the queue loses the
/// first of this kind and keeps the order of the others; where none is due it stays as it is.
pub proof fn law_oldest_point_is_taken(q: Seq<FeelingType>, k: int, i: int)
    requires
        0 <= k < 3,
        0 <= i < q.len(),
        q[i].idx() == k,
        forall|j: int| 0 <= j < i ==> (#[trigger] q[j]).idx() != k,
    ensures
        taken_out(q, seq![0int, 0, 0].update(k, 1)) =~= q.remove(i),
    decreases q.len(),
{
    let net = seq![0int, 0, 0].update(k, 1);
    let rest = q.drop_first();
    if i == 0 {
        assert(net.update(k, net[k] - 1) =~= seq![0int, 0, 0]);
        lemma_nothing_taken(rest);
        assert(rest =~= q.remove(0));
    } else {
        assert(q[0].idx() != k);
        assert forall|j: int| 0 <= j < i - 1 implies (#[trigger] rest[j]).idx() != k by {
            assert(rest[j] == q[j + 1]);
        }
        law_oldest_point_is_taken(rest, k, i - 1);
        assert(seq![q[0]] + rest.remove(i - 1) =~= q.remove(i));
    }
}

proof fn lemma_nothing_taken(q: Seq<FeelingType>)
    ensures
        taken_out(q, seq![0int, 0, 0]) =~= q,
    decreases q.len(),
{
    if q.len() > 0 {
        lemma_nothing_taken(q.drop_first());
        assert(seq![q[0]] + q.drop_first() =~= q);
    }
}

/// Three of five regions can be picked in ten ways, three of ten in a hundred and twenty.
pub proof fn law_number_of_combinations(year_idx: int)
    ensures
        year_idx == 0 || year_idx == 1 ==> combination_count(year_idx) == 10,
        year_idx == 2 ==> combination_count(year_idx) == 120,
        region_first(0) == 0 && region_last(0) == 4,
        region_first(1) == 5 && region_last(1) == 9,
        region_first(2) == 10 && region_last(2) == 19,
{
}

/// Feeling points and gauges are kept apart from the rest: filling them touches neither the hidden
/// flavours nor the scenario points, nor bowls, regions and results.
pub proof fn law_gauges_touch_nothing_else(before: RamenState, after: RamenState)
    requires
        before.kitchen_step(after),
    ensures
        after.special_feeling == before.special_feeling,
        after.scenario_pt == before.scenario_pt,
        after.eat_count == before.eat_count,
        after.current_ramen == before.current_ramen,
        after.pending_ramen == before.pending_ramen,
        after.selected_regions == before.selected_regions,
        after.rmj_results == before.rmj_results,
        after.train_level_bonus == before.train_level_bonus,
        after.obs_year == before.obs_year,
{
}

/// The kitchen is read off the state: gauges, stocks and counters by kind and by year, and the queue.
pub proof fn law_kitchen_is_the_state(state: &RamenState, i: int)
    requires
        0 <= i < 3,
    ensures
        state.kitchen().slot[i] == state.feeling_slot@[i],
        state.kitchen().stock[i] == state.feeling_stock@[i],
        state.kitchen().gained[i] == state.yearly_gauge_gain@[i],
        state.kitchen().dropped[i] == state.yearly_gauge_overflow@[i],
        state.kitchen().queue == state.feeling_queue@,
        state.kitchen().year == state.obs_year,
{
}

/// A recipe is refused for a region that does not exist and for a cost other than five, in this order.
pub proof fn law_recipe_faults(data: &RamenScenarioData, r: usize)
    ensures
        r >= 20 ==> recipe_fault(data, r) == Some(SimError::RegionOutOfRange { region_id: r }),
        r < 20 ==> {
            let recipe = data.recipe(r as int)@;
            &&& recipe[0] + recipe[1] + recipe[2] == 5 ==> recipe_fault(data, r) is None
            &&& recipe[0] + recipe[1] + recipe[2] != 5 ==> recipe_fault(data, r) == Some(
                SimError::RecipeCost { recipe_idx: r },
            )
        },
{
}

/// Of faulty hidden flavours the number in all is named first, then the first kind that is negative or
/// beyond the recipe; of short stocks the first kind.
pub proof fn law_first_fault_is_named(recipe: Seq<int>, t: Seq<int>, stock: Seq<int>, net: Seq<int>)
    requires
        recipe.len() == 3,
        t.len() == 3,
        stock.len() == 3,
        net.len() == 3,
    ensures
        t[0] + t[1] + t[2] > 2 ==> targets_fault(recipe, t) == Some(
            SimError::SpecialTotal { total: (t[0] + t[1] + t[2]) as i32 },
        ),
        t[0] + t[1] + t[2] <= 2 && t[0] < 0 ==> targets_fault(recipe, t) == Some(
            SimError::SpecialNegative { index: 0, value: t[0] as i32 },
        ),
        t[0] + t[1] + t[2] <= 2 && 0 <= t[0] <= recipe[0] && t[1] > recipe[1] && t[1] >= 0
            ==> targets_fault(recipe, t) == Some(
            SimError::SpecialOverRecipe { index: 1, value: t[1] as i32, cost: recipe[1] as i32 },
        ),
        stock[0] < net[0] ==> stock_fault_from(stock, net, 0) == Some(
            SimError::FeelingShort { index: 0, need: net[0] as i32, have: stock[0] as i32 },
        ),
        stock[0] >= net[0] && stock[1] >= net[1] && stock[2] < net[2] ==> stock_fault_from(
            stock,
            net,
            0,
        ) == Some(SimError::FeelingShort { index: 2, need: net[2] as i32, have: stock[2] as i32 }),
{
    reveal_with_fuel(targets_fault_from, 4);
    reveal_with_fuel(stock_fault_from, 4);
}

/// A bowl costs what its recipe asks of each kind: what leaves the stock and what hidden flavours stand
/// in for add up to it. Each hidden flavour used is gone, and nothing else changes but the queue.
pub proof fn law_recipe_is_paid_in_full(
    before: RamenState,
    after: RamenState,
    recipe: Seq<int>,
    t: Seq<int>,
    used: int,
    k: int,
)
    requires
        paid(before, after, recipe, t, used),
        0 <= k < 3,
    ensures
        (before.feeling_stock@[k] - after.feeling_stock@[k]) + t[k] == recipe[k],
        before.special_feeling - after.special_feeling == t[0] + t[1] + t[2],
        used == t[0] + t[1] + t[2],
        after.scenario_pt == before.scenario_pt,
        after.eat_count == before.eat_count,
        after.current_ramen == before.current_ramen,
{
    let a = ints(after.feeling_stock);
    assert(a[k] == after.feeling_stock@[k]);
}

} // verus!
