//! The row scheduler: which row to start next, and when.
//!
//! The scheduler hands out row numbers `0, 1, 2, ..` one at a time and never
//! lets more rows be in flight than its limit. It does no rendering itself:
//! whoever drives it starts a worker for each row it hands out and tells it of
//! each row that has come back.

use vstd::prelude::*;

verus! {

/// What a scheduler knows: how many rows there are, how many may be in flight
/// at once, how many were handed out and how many came back.
pub struct PoolState {
    pub height: nat,
    pub limit: nat,
    pub dispatched: nat,
    pub completed: nat,
}

impl PoolState {
    /// The state before any row is handed out. There is never more than one
    /// worker per row, so the limit is capped by the height.
    pub open spec fn initial(height: nat, concurrency_limit: nat) -> PoolState {
        PoolState {
            height,
            limit: if concurrency_limit <= height {
                concurrency_limit
            } else {
                height
            },
            dispatched: 0,
            completed: 0,
        }
    }

    /// Rows handed out that have not come back.
    pub open spec fn in_flight(self) -> int {
        self.dispatched - self.completed
    }

    /// Rows are handed out before they come back, no row beyond the height is
    /// handed out, and the rows in flight stay within the limit.
    pub open spec fn inv(self) -> bool {
        &&& self.limit <= self.height
        &&& self.completed <= self.dispatched <= self.height
        &&& self.in_flight() <= self.limit
    }

    /// A row may be started: one is left, and there is room for it.
    pub open spec fn can_launch(self) -> bool {
        self.dispatched < self.height && self.in_flight() < self.limit
    }

    /// The state after one more row was handed out.
    pub open spec fn launched(self) -> PoolState {
        PoolState { dispatched: self.dispatched + 1, ..self }
    }

    /// The row that takes the place of one that has come back, if any is left.
    pub open spec fn backfill(self) -> Option<nat> {
        if self.dispatched < self.height {
            Some(self.dispatched)
        } else {
            None
        }
    }

    /// The state after one row has come back and its place was filled again.
    pub open spec fn completed_one(self) -> PoolState {
        PoolState {
            completed: self.completed + 1,
            dispatched: if self.dispatched < self.height {
                self.dispatched + 1
            } else {
                self.dispatched
            },
            ..self
        }
    }

    /// Every row has come back.
    pub open spec fn finished(self) -> bool {
        self.completed == self.height
    }
}

/// Hands out row numbers under a concurrency limit.
pub struct Scheduler {
    height: u32,
    limit: u32,
    dispatched: u32,
    completed: u32,
}

impl View for Scheduler {
    type V = PoolState;

    closed spec fn view(&self) -> PoolState {
        PoolState {
            height: self.height as nat,
            limit: self.limit as nat,
            dispatched: self.dispatched as nat,
            completed: self.completed as nat,
        }
    }
}

impl Scheduler {
    /// The scheduler's invariant, which its constructor establishes and every
    /// method keeps.
    pub open spec fn wf(&self) -> bool {
        self@.inv()
    }

    /// A scheduler for `height` rows of which at most `concurrency_limit`,
    /// and never more than `height`, are in flight at once. No row is handed
    /// out yet.
    pub fn new(height: u32, concurrency_limit: u32) -> (scheduler: Scheduler)
        ensures
            scheduler.wf(),
            scheduler@ == PoolState::initial(height as nat, concurrency_limit as nat),
    {
        let limit = if concurrency_limit <= height {
            concurrency_limit
        } else {
            height
        };
        Scheduler { height, limit, dispatched: 0, completed: 0 }
    }

    /// Hands out the next row if one is left and there is room for it.
    ///
    /// The row handed out is the lowest one not handed out before. Called
    /// until it returns `None`, this fills the pool at the start of a render.
    pub fn launch_next(&mut self) -> (row: Option<u32>)
        requires
            old(self).wf(),
        ensures
            final(self).wf(),
            old(self)@.can_launch() ==> {
                &&& row matches Some(next) && next == old(self)@.dispatched
                &&& final(self)@ == old(self)@.launched()
            },
            !old(self)@.can_launch() ==> row is None && final(self)@ == old(self)@,
    {
        if self.dispatched < self.height && self.dispatched - self.completed < self.limit {
            let row = self.dispatched;
            self.dispatched = self.dispatched + 1;
            Some(row)
        } else {
            None
        }
    }

    /// Records that one row in flight has come back and, if a row is left,
    /// hands out exactly one to take its place.
    pub fn on_completion(&mut self) -> (row: Option<u32>)
        requires
            old(self).wf(),
            old(self)@.in_flight() > 0,
        ensures
            final(self).wf(),
            final(self)@ == old(self)@.completed_one(),
            match old(self)@.backfill() {
                Some(next) => row matches Some(started) && started == next,
                None => row is None,
            },
    {
        self.completed = self.completed + 1;
        if self.dispatched < self.height {
            let row = self.dispatched;
            self.dispatched = self.dispatched + 1;
            Some(row)
        } else {
            None
        }
    }

    /// Whether every row has come back.
    pub fn is_finished(&self) -> (done: bool)
        ensures
            done == self@.finished(),
    {
        self.completed == self.height
    }

    /// The number of rows handed out that have not come back.
    pub fn rows_in_flight(&self) -> (n: u32)
        requires
            self.wf(),
        ensures
            n == self@.in_flight(),
            n <= self@.limit,
    {
        self.dispatched - self.completed
    }

    /// The number of rows handed out so far. They are the rows below that
    /// number.
    pub fn rows_dispatched(&self) -> (n: u32)
        ensures
            n == self@.dispatched,
    {
        self.dispatched
    }

    /// The number of rows that have come back.
    pub fn rows_completed(&self) -> (n: u32)
        ensures
            n == self@.completed,
    {
        self.completed
    }

    /// The most rows that are ever in flight at once.
    pub fn limit(&self) -> (n: u32)
        ensures
            n == self@.limit,
    {
        self.limit
    }
}

/// The rows handed out, in order, while the pool is filled up from state `s`
/// by starting rows as long as one may be started.
pub open spec fn startup_rows(s: PoolState) -> Seq<nat>
    decreases s.height - s.dispatched,
{
    if s.can_launch() {
        seq![s.dispatched] + startup_rows(s.launched())
    } else {
        Seq::empty()
    }
}

/// The state once the pool is filled up from state `s`.
pub open spec fn after_startup(s: PoolState) -> PoolState
    decreases s.height - s.dispatched,
{
    if s.can_launch() {
        after_startup(s.launched())
    } else {
        s
    }
}

/// The state after `k` rows have come back, one after the other, from state
/// `s`, each place filled again as long as rows are left.
pub open spec fn after_completions(s: PoolState, k: nat) -> PoolState
    decreases k,
{
    if k == 0 {
        s
    } else {
        after_completions(s, (k - 1) as nat).completed_one()
    }
}

/// The rows handed out, in order, to fill the places of the first `k` rows
/// that come back from state `s`.
pub open spec fn backfill_rows(s: PoolState, k: nat) -> Seq<nat>
    decreases k,
{
    if k == 0 {
        Seq::empty()
    } else {
        let earlier = backfill_rows(s, (k - 1) as nat);
        match after_completions(s, (k - 1) as nat).backfill() {
            Some(row) => earlier.push(row),
            None => earlier,
        }
    }
}

/// The state of a render of `height` rows under `concurrency_limit` once the
/// pool was filled and `k` rows have come back.
pub open spec fn run(height: nat, concurrency_limit: nat, k: nat) -> PoolState {
    after_completions(after_startup(PoolState::initial(height, concurrency_limit)), k)
}

/// Every row handed out in such a render up to that moment, in the order in
/// which the rows were handed out.
pub open spec fn dispatch_log(height: nat, concurrency_limit: nat, k: nat) -> Seq<nat> {
    let start = PoolState::initial(height, concurrency_limit);
    startup_rows(start) + backfill_rows(after_startup(start), k)
}

/// The rows `first, first + 1, ..`, `count` of them.
pub open spec fn consecutive_rows(first: nat, count: nat) -> Seq<nat> {
    Seq::new(count, |i: int| (first + i) as nat)
}

/// The number of rows handed out once `k` rows have come back: the pool was
/// filled, and each row that came back was replaced while rows were left.
pub open spec fn dispatched_after(s: PoolState, k: nat) -> nat {
    if s.limit + k <= s.height {
        s.limit + k
    } else {
        s.height
    }
}

/// Filling the pool hands out the next rows in order until the limit or the
/// last row is reached.
proof fn lemma_startup(s: PoolState)
    requires
        s.inv(),
    ensures
        after_startup(s).inv(),
        after_startup(s) == (PoolState {
            dispatched: if s.completed + s.limit <= s.height {
                s.completed + s.limit
            } else {
                s.height
            },
            ..s
        }),
        startup_rows(s) == consecutive_rows(
            s.dispatched,
            (after_startup(s).dispatched - s.dispatched) as nat,
        ),
    decreases s.height - s.dispatched,
{
    if s.can_launch() {
        lemma_startup(s.launched());
        assert(startup_rows(s) =~= consecutive_rows(
            s.dispatched,
            (after_startup(s).dispatched - s.dispatched) as nat,
        ));
    }
}

/// From a full pool, each row that comes back is replaced by the next row in
/// order while rows are left.
proof fn lemma_completions(s: PoolState, k: nat)
    requires
        s.inv(),
        s.completed == 0,
        s.dispatched == s.limit,
        s.limit > 0 || s.height == 0,
        k <= s.height,
    ensures
        after_completions(s, k).inv(),
        after_completions(s, k) == (PoolState {
            completed: k,
            dispatched: dispatched_after(s, k),
            ..s
        }),
        backfill_rows(s, k) == consecutive_rows(
            s.limit,
            (dispatched_after(s, k) - s.limit) as nat,
        ),
    decreases k,
{
    if k > 0 {
        lemma_completions(s, (k - 1) as nat);
        assert(backfill_rows(s, k) =~= consecutive_rows(
            s.limit,
            (dispatched_after(s, k) - s.limit) as nat,
        ));
    }
}

/// Up to any moment of a render the rows handed out are the first ones, each
/// once and in order; and when all rows have come back, every row of the
/// image was handed out exactly once, none twice and none left out.
pub proof fn lemma_every_row_dispatched_once(height: nat, concurrency_limit: nat, k: nat)
    requires
        concurrency_limit > 0,
        k <= height,
    ensures
        dispatch_log(height, concurrency_limit, k) == consecutive_rows(
            0,
            run(height, concurrency_limit, k).dispatched,
        ),
        dispatch_log(height, concurrency_limit, k).no_duplicates(),
        run(height, concurrency_limit, height).finished(),
        dispatch_log(height, concurrency_limit, height) == consecutive_rows(0, height),
        forall|row: nat|
            row < height ==> dispatch_log(height, concurrency_limit, height).contains(row),
{
    let start = PoolState::initial(height, concurrency_limit);
    lemma_startup(start);
    let full = after_startup(start);
    lemma_completions(full, k);
    lemma_completions(full, height);
    assert(dispatch_log(height, concurrency_limit, k) =~= consecutive_rows(
        0,
        run(height, concurrency_limit, k).dispatched,
    ));
    let all = dispatch_log(height, concurrency_limit, height);
    assert(all =~= consecutive_rows(0, height));
    assert forall|row: nat| row < height implies all.contains(row) by {
        assert(all[row as int] == row);
    }
}

/// At every moment of a render the rows in flight are as many as the limit
/// allows, or all rows that have not come back if those are fewer: never more
/// than the limit, and exactly the limit while at least that many rows have
/// not come back. So as long as a row has not come back, one is in flight.
pub proof fn lemma_in_flight_ceiling(height: nat, concurrency_limit: nat, k: nat)
    requires
        concurrency_limit > 0,
        k <= height,
    ensures
        ({
            let start = PoolState::initial(height, concurrency_limit);
            let now = run(height, concurrency_limit, k);
            &&& now == (PoolState {
                completed: k,
                dispatched: dispatched_after(start, k),
                ..start
            })
            &&& now.inv()
            &&& now.limit <= concurrency_limit
            &&& now.in_flight() <= now.limit
            &&& height - k >= now.limit ==> now.in_flight() == now.limit
            &&& height - k < now.limit ==> now.in_flight() == height - k
            &&& k < height ==> now.in_flight() > 0
        }),
{
    let start = PoolState::initial(height, concurrency_limit);
    lemma_startup(start);
    lemma_completions(after_startup(start), k);
}

} // verus!
