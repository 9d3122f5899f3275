//! Running a batch of operations with a cap on how many run at once.
//!
//! A [`BatchExecutor`] keeps the books for a sequence of operations that fail
//! or succeed independently of each other. It says when the next operation may
//! start, so that no more than the limit are in flight at any time, and when
//! the batch is over: when every operation has been resolved, whatever came of
//! it. A failure is recorded for the operation that failed and touches nothing
//! else.
//!
//! The executor runs nothing itself. Its driver polls it, starts what it is
//! told to start, waits for an operation to end when told to wait, and reports
//! each end with [`BatchExecutor::resolve`].

use vstd::prelude::*;

verus! {

/// Where one operation of a batch stands.
#[derive(Clone, Copy, Debug, PartialEq, Eq, Structural)]
pub enum OperationStatus {
    /// Not started yet.
    Pending,
    /// Started and not resolved yet.
    InFlight,
    /// Resolved with success.
    Succeeded,
    /// Resolved with a failure.
    Failed,
}

/// How one operation ended.
#[derive(Clone, Copy, Debug, PartialEq, Eq, Structural)]
pub enum OperationOutcome {
    Succeeded,
    Failed,
}

/// What the driver of a batch does next.
#[derive(Clone, Copy, Debug, PartialEq, Eq, Structural)]
pub enum BatchAction {
    /// Start the operation at this place of the sequence. The executor counts
    /// it as in flight from now on.
    Start(usize),
    /// Wait until one of the operations in flight ends, and resolve it.
    Wait,
    /// Every operation is resolved.
    Finished,
}

/// What a [`BatchAction`] stands for.
pub enum ActionView {
    Start(int),
    Wait,
    Finished,
}

impl View for BatchAction {
    type V = ActionView;

    open spec fn view(&self) -> ActionView {
        match *self {
            BatchAction::Start(index) => ActionView::Start(index as int),
            BatchAction::Wait => ActionView::Wait,
            BatchAction::Finished => ActionView::Finished,
        }
    }
}

/// Why the executor refused a request.
#[derive(Clone, Copy, Debug, PartialEq, Eq, Structural)]
pub enum BatchError {
    /// A batch with a limit of zero could never start an operation.
    ZeroLimit,
    /// The operation to resolve is not in flight.
    NotInFlight,
}

/// What happens to a batch: its driver polls it, or reports that the operation
/// at `index` ended with `outcome`.
pub enum BatchEvent {
    Poll,
    Resolve { index: int, outcome: OperationOutcome },
}

/// The status of an operation that ended with `outcome`.
pub open spec fn resolved_status(outcome: OperationOutcome) -> OperationStatus {
    match outcome {
        OperationOutcome::Succeeded => OperationStatus::Succeeded,
        OperationOutcome::Failed => OperationStatus::Failed,
    }
}

/// How many of the operations have the given status.
pub open spec fn count(statuses: Seq<OperationStatus>, status: OperationStatus) -> nat
    decreases statuses.len(),
{
    if statuses.len() == 0 {
        0
    } else {
        count(statuses.drop_last(), status) + if statuses.last() == status {
            1nat
        } else {
            0nat
        }
    }
}

/// A batch: the status of each operation, in the order of the sequence, and
/// the most that may be in flight at once.
pub struct BatchView {
    pub statuses: Seq<OperationStatus>,
    pub limit: nat,
}

/// A batch of `operations` operations of which none has started.
pub open spec fn new_batch(operations: nat, limit: nat) -> BatchView {
    BatchView { statuses: Seq::new(operations, |i: int| OperationStatus::Pending), limit }
}

impl BatchView {
    /// How many operations the batch has.
    pub open spec fn operations(self) -> nat {
        self.statuses.len()
    }

    /// How many operations have not started.
    pub open spec fn pending(self) -> nat {
        count(self.statuses, OperationStatus::Pending)
    }

    /// How many operations have started and are not resolved.
    pub open spec fn in_flight(self) -> nat {
        count(self.statuses, OperationStatus::InFlight)
    }

    /// How many operations are resolved, with success or with a failure.
    pub open spec fn resolved(self) -> nat {
        count(self.statuses, OperationStatus::Succeeded) + count(
            self.statuses,
            OperationStatus::Failed,
        )
    }

    /// How many operations have started.
    pub open spec fn started(self) -> int {
        self.statuses.len() - self.pending()
    }

    /// How many starts and ends the batch still has to see.
    pub open spec fn work_left(self) -> nat {
        2 * self.pending() + self.in_flight()
    }

    /// The limit holds, and the operations have started in the order of the
    /// sequence, so that those not started are the last ones.
    pub open spec fn wf(self) -> bool {
        &&& self.in_flight() <= self.limit
        &&& forall|i: int|
            0 <= i < self.statuses.len() ==> ((#[trigger] self.statuses[i] is Pending)
                <==> self.started() <= i)
    }

    /// What the driver does next: nothing more when every operation is
    /// resolved; else it starts the first operation that has not started, if
    /// the limit leaves room for one more; else it waits.
    pub open spec fn next_action(self) -> ActionView {
        if self.resolved() == self.operations() {
            ActionView::Finished
        } else if self.pending() > 0 && self.in_flight() < self.limit {
            ActionView::Start(self.started())
        } else {
            ActionView::Wait
        }
    }

    /// The operation at `index` is in flight, so that it can be resolved.
    pub open spec fn accepts(self, index: int) -> bool {
        0 <= index < self.statuses.len() && self.statuses[index] is InFlight
    }

    /// The batch after the event. A poll that tells the driver to start an
    /// operation puts that operation in flight. The end of an operation in
    /// flight is recorded for that operation. Nothing else changes the batch.
    pub open spec fn apply(self, event: BatchEvent) -> BatchView {
        match event {
            BatchEvent::Poll => match self.next_action() {
                ActionView::Start(index) => BatchView {
                    statuses: self.statuses.update(index, OperationStatus::InFlight),
                    limit: self.limit,
                },
                _ => self,
            },
            BatchEvent::Resolve { index, outcome } => if self.accepts(index) {
                BatchView {
                    statuses: self.statuses.update(index, resolved_status(outcome)),
                    limit: self.limit,
                }
            } else {
                self
            },
        }
    }

    /// The batch after the events, in order.
    pub open spec fn after(self, events: Seq<BatchEvent>) -> BatchView
        decreases events.len(),
    {
        if events.len() == 0 {
            self
        } else {
            self.after(events.drop_last()).apply(events.last())
        }
    }
}

/// Changing one operation's status moves one unit of the count from its old
/// status to its new one.
proof fn lemma_count_update(
    statuses: Seq<OperationStatus>,
    index: int,
    to: OperationStatus,
    status: OperationStatus,
)
    requires
        0 <= index < statuses.len(),
    ensures
        count(statuses.update(index, to), status) == count(statuses, status) - (if statuses[index]
            == status {
            1int
        } else {
            0int
        }) + (if to == status {
            1int
        } else {
            0int
        }),
    decreases statuses.len(),
{
    let updated = statuses.update(index, to);
    if index == statuses.len() - 1 {
        assert(updated.drop_last() =~= statuses.drop_last());
    } else {
        assert(updated.drop_last() =~= statuses.drop_last().update(index, to));
        lemma_count_update(statuses.drop_last(), index, to, status);
    }
}

/// The counts of the four statuses add up to the number of operations, and a
/// status with a count above zero is the status of some operation.
proof fn lemma_count_facts(statuses: Seq<OperationStatus>)
    ensures
        count(statuses, OperationStatus::Pending) + count(statuses, OperationStatus::InFlight)
            + count(statuses, OperationStatus::Succeeded) + count(
            statuses,
            OperationStatus::Failed,
        ) == statuses.len(),
        forall|status: OperationStatus|
            count(statuses, status) > 0 ==> exists|i: int|
                0 <= i < statuses.len() && #[trigger] statuses[i] == status,
        forall|status: OperationStatus, i: int|
            0 <= i < statuses.len() && #[trigger] statuses[i] == status ==> #[trigger] count(
                statuses,
                status,
            ) > 0,
    decreases statuses.len(),
{
    if statuses.len() > 0 {
        let front = statuses.drop_last();
        lemma_count_facts(front);
        assert forall|status: OperationStatus| count(statuses, status) > 0 implies exists|i: int|
            0 <= i < statuses.len() && #[trigger] statuses[i] == status by {
            if statuses.last() == status {
                assert(statuses[statuses.len() - 1] == status);
            } else {
                assert(count(front, status) > 0);
                let i = choose|i: int| 0 <= i < front.len() && #[trigger] front[i] == status;
                assert(statuses[i] == status);
            }
        }
        assert forall|status: OperationStatus, i: int|
            0 <= i < statuses.len() && #[trigger] statuses[i] == status implies #[trigger] count(
            statuses,
            status,
        ) > 0 by {
            if i < front.len() {
                assert(front[i] == status);
            }
        }
    }
}

/// In a batch of which nothing has started, every operation is pending.
proof fn lemma_count_new(operations: nat, limit: nat)
    ensures
        new_batch(operations, limit).pending() == operations,
        new_batch(operations, limit).in_flight() == 0,
        new_batch(operations, limit).resolved() == 0,
    decreases operations,
{
    let batch = new_batch(operations, limit);
    if operations > 0 {
        assert(batch.statuses.drop_last() =~= new_batch((operations - 1) as nat, limit).statuses);
        lemma_count_new((operations - 1) as nat, limit);
    }
}

/// An event leaves a well-formed batch well-formed, with the operations and
/// the limit it had, and an event that changes the batch takes one unit of
/// the work that is left.
proof fn lemma_apply_wf(batch: BatchView, event: BatchEvent)
    requires
        batch.wf(),
    ensures
        batch.apply(event).wf(),
        batch.apply(event).limit == batch.limit,
        batch.apply(event).operations() == batch.operations(),
        batch.apply(event) != batch ==> batch.apply(event).work_left() + 1 == batch.work_left(),
        event is Poll && batch.next_action() is Start ==> batch.apply(event) != batch,
        event matches BatchEvent::Resolve { index, .. } && batch.accepts(index) ==> batch.apply(
            event,
        ) != batch,
{
    let next = batch.apply(event);
    lemma_count_facts(batch.statuses);
    match event {
        BatchEvent::Poll => {
            if let ActionView::Start(index) = batch.next_action() {
                assert(0 <= index < batch.statuses.len());
                assert(batch.statuses[index] is Pending);
                lemma_count_update(
                    batch.statuses,
                    index,
                    OperationStatus::InFlight,
                    OperationStatus::Pending,
                );
                lemma_count_update(
                    batch.statuses,
                    index,
                    OperationStatus::InFlight,
                    OperationStatus::InFlight,
                );
                assert(next.statuses[index] != batch.statuses[index]);
                assert forall|i: int| 0 <= i < next.statuses.len() implies ((
                #[trigger] next.statuses[i] is Pending) <==> next.started() <= i) by {
                    if i != index {
                        assert(next.statuses[i] == batch.statuses[i]);
                    }
                }
            }
        },
        BatchEvent::Resolve { index, outcome } => {
            if batch.accepts(index) {
                let to = resolved_status(outcome);
                lemma_count_update(batch.statuses, index, to, OperationStatus::Pending);
                lemma_count_update(batch.statuses, index, to, OperationStatus::InFlight);
                assert(next.statuses[index] != batch.statuses[index]);
                assert forall|i: int| 0 <= i < next.statuses.len() implies ((
                #[trigger] next.statuses[i] is Pending) <==> next.started() <= i) by {
                    if i != index {
                        assert(next.statuses[i] == batch.statuses[i]);
                    }
                }
            }
        },
    }
}

/// The limit holds at every moment of every batch.
///
/// Whatever the driver of a batch does, in whatever order the operations end
/// and whatever comes of them, the operations in flight are never more than
/// the limit. The events change neither the limit nor the number of
/// operations.
pub proof fn lemma_limit_always_holds(operations: nat, limit: nat, events: Seq<BatchEvent>)
    ensures
        new_batch(operations, limit).after(events).wf(),
        new_batch(operations, limit).after(events).in_flight() <= limit,
        new_batch(operations, limit).after(events).limit == limit,
        new_batch(operations, limit).after(events).operations() == operations,
{
    let batch = new_batch(operations, limit);
    lemma_count_new(operations, limit);
    lemma_after_wf(batch, events);
}

/// Events leave a well-formed batch well-formed, with the operations and the
/// limit it had.
pub proof fn lemma_after_wf(batch: BatchView, events: Seq<BatchEvent>)
    requires
        batch.wf(),
    ensures
        batch.after(events).wf(),
        batch.after(events).limit == batch.limit,
        batch.after(events).operations() == batch.operations(),
    decreases events.len(),
{
    if events.len() > 0 {
        lemma_after_wf(batch, events.drop_last());
        lemma_apply_wf(batch.after(events.drop_last()), events.last());
    }
}

/// A batch is over exactly when every operation is resolved.
///
/// The driver is told that the batch is finished when each operation has
/// succeeded or failed, and at no other time. A batch without operations is
/// finished from the start.
pub proof fn lemma_finished_when_all_resolved(batch: BatchView)
    ensures
        batch.next_action() is Finished <==> forall|i: int|
            0 <= i < batch.statuses.len() ==> #[trigger] batch.statuses[i] is Succeeded
                || batch.statuses[i] is Failed,
        batch.next_action() is Finished <==> batch.work_left() == 0,
        batch.operations() == 0 ==> batch.next_action() is Finished,
{
    lemma_count_facts(batch.statuses);
    if batch.next_action() is Finished {
        assert forall|i: int| 0 <= i < batch.statuses.len() implies #[trigger] batch.statuses[i]
            is Succeeded || batch.statuses[i] is Failed by {
            if batch.statuses[i] is Pending {
                assert(batch.statuses[i] == OperationStatus::Pending);
            } else if batch.statuses[i] is InFlight {
                assert(batch.statuses[i] == OperationStatus::InFlight);
            }
        }
    }
    if forall|i: int|
        0 <= i < batch.statuses.len() ==> #[trigger] batch.statuses[i] is Succeeded
            || batch.statuses[i] is Failed {
        if batch.pending() > 0 {
            let i = choose|i: int|
                0 <= i < batch.statuses.len() && #[trigger] batch.statuses[i]
                    == OperationStatus::Pending;
            assert(batch.statuses[i] is Succeeded || batch.statuses[i] is Failed);
        }
        if batch.in_flight() > 0 {
            let i = choose|i: int|
                0 <= i < batch.statuses.len() && #[trigger] batch.statuses[i]
                    == OperationStatus::InFlight;
            assert(batch.statuses[i] is Succeeded || batch.statuses[i] is Failed);
        }
    }
}

/// A batch that is not over can always move on.
///
/// Let the limit be at least one. When the driver is told to start an operation, it is the first that has
/// not started. When it is told to wait, some operation is in flight, whose
/// end the batch accepts. Each start and each accepted end takes one unit of
/// the work that is left, which is two units for each operation at the start
/// and none when the batch is finished: so every operation is started and
/// resolved before the batch ends, and the batch ends after twice as many
/// steps as it has operations.
pub proof fn lemma_batch_moves_on(batch: BatchView)
    requires
        batch.wf(),
        batch.limit >= 1,
    ensures
        match batch.next_action() {
            ActionView::Start(index) => {
                &&& index == batch.started()
                &&& 0 <= index < batch.operations()
                &&& batch.statuses[index] is Pending
                &&& batch.apply(BatchEvent::Poll).statuses[index] is InFlight
                &&& batch.apply(BatchEvent::Poll).work_left() + 1 == batch.work_left()
            },
            ActionView::Wait => exists|index: int| #[trigger] batch.accepts(index),
            ActionView::Finished => batch.work_left() == 0,
        },
        forall|index: int, outcome: OperationOutcome|
            batch.accepts(index) ==> (#[trigger] batch.apply(
                BatchEvent::Resolve { index, outcome },
            )).work_left() + 1 == batch.work_left(),
        new_batch(batch.operations(), batch.limit).work_left() == 2 * batch.operations(),
{
    lemma_count_facts(batch.statuses);
    lemma_count_new(batch.operations(), batch.limit);
    lemma_apply_wf(batch, BatchEvent::Poll);
    match batch.next_action() {
        ActionView::Start(index) => {},
        ActionView::Wait => {
            assert(batch.in_flight() > 0);
            let i = choose|i: int|
                0 <= i < batch.statuses.len() && #[trigger] batch.statuses[i]
                    == OperationStatus::InFlight;
            assert(batch.accepts(i));
        },
        ActionView::Finished => {},
    }
    assert forall|index: int, outcome: OperationOutcome| batch.accepts(index) implies (
    #[trigger] batch.apply(BatchEvent::Resolve { index, outcome })).work_left() + 1
        == batch.work_left() by {
        lemma_apply_wf(batch, BatchEvent::Resolve { index, outcome });
    }
}

/// Two batches that differ in the outcome of the operation at `index` alone:
/// it failed in the first and succeeded in the second.
pub open spec fn differ_in_outcome(failed: BatchView, succeeded: BatchView, index: int) -> bool {
    &&& 0 <= index < succeeded.statuses.len()
    &&& succeeded.statuses[index] is Succeeded
    &&& failed.statuses == succeeded.statuses.update(index, OperationStatus::Failed)
    &&& failed.limit == succeeded.limit
}

/// A failure touches nothing but the operation that failed.
///
/// Take a batch in which the operation at `index` is in flight, let that
/// operation fail in one run and succeed in another, and let the same events
/// follow in both. Then the two runs differ in the status of that one
/// operation and in nothing else: every other operation has the same status
/// in both, and the driver is told the same thing to do next. So a failure
/// neither stops the batch nor holds up another operation.
pub proof fn lemma_failure_is_isolated(batch: BatchView, index: int, events: Seq<BatchEvent>)
    requires
        batch.wf(),
        batch.accepts(index),
    ensures
        ({
            let failed = batch.apply(
                BatchEvent::Resolve { index, outcome: OperationOutcome::Failed },
            ).after(events);
            let succeeded = batch.apply(
                BatchEvent::Resolve { index, outcome: OperationOutcome::Succeeded },
            ).after(events);
            &&& differ_in_outcome(failed, succeeded, index)
            &&& failed.next_action() == succeeded.next_action()
            &&& forall|i: int|
                0 <= i < failed.statuses.len() && i != index ==> failed.statuses[i]
                    == succeeded.statuses[i]
        }),
    decreases events.len(),
{
    let failed_start = batch.apply(
        BatchEvent::Resolve { index, outcome: OperationOutcome::Failed },
    );
    let succeeded_start = batch.apply(
        BatchEvent::Resolve { index, outcome: OperationOutcome::Succeeded },
    );
    if events.len() == 0 {
        assert(failed_start.statuses =~= succeeded_start.statuses.update(
            index,
            OperationStatus::Failed,
        ));
        lemma_same_action(failed_start, succeeded_start, index);
    } else {
        lemma_failure_is_isolated(batch, index, events.drop_last());
        let failed = failed_start.after(events.drop_last());
        let succeeded = succeeded_start.after(events.drop_last());
        lemma_same_action(failed, succeeded, index);
        let event = events.last();
        match event {
            BatchEvent::Poll => {
                if let ActionView::Start(at) = succeeded.next_action() {
                    lemma_apply_wf(batch, BatchEvent::Resolve {
                        index,
                        outcome: OperationOutcome::Succeeded,
                    });
                    lemma_after_wf(succeeded_start, events.drop_last());
                    lemma_count_facts(succeeded.statuses);
                    assert(succeeded.statuses[at] is Pending);
                    assert(failed.apply(event).statuses =~= succeeded.apply(
                        event,
                    ).statuses.update(index, OperationStatus::Failed));
                }
            },
            BatchEvent::Resolve { index: at, outcome } => {
                if succeeded.accepts(at) {
                    assert(at != index);
                    assert(failed.accepts(at));
                    assert(failed.apply(event).statuses =~= succeeded.apply(
                        event,
                    ).statuses.update(index, OperationStatus::Failed));
                } else {
                    assert(!failed.accepts(at));
                }
            },
        }
        lemma_same_action(failed.apply(event), succeeded.apply(event), index);
    }
}

/// Batches that differ in one outcome alone tell the driver the same thing.
proof fn lemma_same_action(failed: BatchView, succeeded: BatchView, index: int)
    requires
        differ_in_outcome(failed, succeeded, index),
    ensures
        failed.pending() == succeeded.pending(),
        failed.in_flight() == succeeded.in_flight(),
        failed.resolved() == succeeded.resolved(),
        failed.next_action() == succeeded.next_action(),
{
    lemma_count_update(
        succeeded.statuses,
        index,
        OperationStatus::Failed,
        OperationStatus::Pending,
    );
    lemma_count_update(
        succeeded.statuses,
        index,
        OperationStatus::Failed,
        OperationStatus::InFlight,
    );
    lemma_count_update(
        succeeded.statuses,
        index,
        OperationStatus::Failed,
        OperationStatus::Succeeded,
    );
    lemma_count_update(
        succeeded.statuses,
        index,
        OperationStatus::Failed,
        OperationStatus::Failed,
    );
}

/// The books of a batch of operations.
#[derive(Debug, PartialEq, Eq)]
pub struct BatchExecutor {
    statuses: Vec<OperationStatus>,
    limit: usize,
    started: usize,
    in_flight: usize,
    resolved: usize,
}

impl View for BatchExecutor {
    type V = BatchView;

    closed spec fn view(&self) -> BatchView {
        BatchView { statuses: self.statuses@, limit: self.limit as nat }
    }
}

impl BatchExecutor {
    /// The books are in order: the batch is well-formed and the counters hold
    /// what it holds.
    pub closed spec fn wf(&self) -> bool {
        &&& self@.wf()
        &&& self.limit >= 1
        &&& self.started == self@.started()
        &&& self.in_flight == self@.in_flight()
        &&& self.resolved == self@.resolved()
    }

    /// A batch of `operations` operations, none of them started, of which at
    /// most `limit` may be in flight at once. A limit of zero is refused.
    pub fn new(operations: usize, limit: usize) -> (batch: Result<BatchExecutor, BatchError>)
        ensures
            limit == 0 ==> batch == Err::<BatchExecutor, BatchError>(BatchError::ZeroLimit),
            limit > 0 ==> batch is Ok && batch->Ok_0.wf() && batch->Ok_0@.wf() && batch->Ok_0@
                == new_batch(operations as nat, limit as nat),
    {
        if limit == 0 {
            return Err(BatchError::ZeroLimit);
        }
        let mut statuses: Vec<OperationStatus> = Vec::new();
        while statuses.len() < operations
            invariant
                statuses.len() <= operations,
                forall|i: int| 0 <= i < statuses.len() ==> statuses[i] is Pending,
            decreases operations - statuses.len(),
        {
            statuses.push(OperationStatus::Pending);
        }
        let batch = BatchExecutor { statuses, limit, started: 0, in_flight: 0, resolved: 0 };
        proof {
            assert(batch@.statuses =~= new_batch(operations as nat, limit as nat).statuses);
            lemma_count_new(operations as nat, limit as nat);
        }
        Ok(batch)
    }

    /// Says what the driver does next. When that is to start an operation, the
    /// operation is in flight from now on.
    pub fn poll(&mut self) -> (action: BatchAction)
        requires
            old(self).wf(),
        ensures
            final(self).wf(),
            action@ == old(self)@.next_action(),
            final(self)@ == old(self)@.apply(BatchEvent::Poll),
            final(self)@.wf(),
            final(self)@.limit >= 1,
    {
        proof {
            lemma_apply_wf(self@, BatchEvent::Poll);
            lemma_count_facts(self@.statuses);
        }
        if self.resolved == self.statuses.len() {
            BatchAction::Finished
        } else if self.started < self.statuses.len() && self.in_flight < self.limit {
            let index = self.started;
            proof {
                lemma_count_update(
                    self@.statuses,
                    index as int,
                    OperationStatus::InFlight,
                    OperationStatus::Pending,
                );
                lemma_count_update(
                    self@.statuses,
                    index as int,
                    OperationStatus::InFlight,
                    OperationStatus::InFlight,
                );
                lemma_count_update(
                    self@.statuses,
                    index as int,
                    OperationStatus::InFlight,
                    OperationStatus::Succeeded,
                );
                lemma_count_update(
                    self@.statuses,
                    index as int,
                    OperationStatus::InFlight,
                    OperationStatus::Failed,
                );
            }
            self.statuses.set(index, OperationStatus::InFlight);
            self.started = index + 1;
            self.in_flight = self.in_flight + 1;
            BatchAction::Start(index)
        } else {
            BatchAction::Wait
        }
    }

    /// Records how the operation at `index` ended. An operation that is not in
    /// flight is refused, and the batch stays as it was.
    pub fn resolve(&mut self, index: usize, outcome: OperationOutcome) -> (result: Result<
        (),
        BatchError,
    >)
        requires
            old(self).wf(),
        ensures
            final(self).wf(),
            final(self)@.wf(),
            final(self)@.limit >= 1,
            final(self)@ == old(self)@.apply(BatchEvent::Resolve { index: index as int, outcome }),
            old(self)@.accepts(index as int) ==> result is Ok,
            !old(self)@.accepts(index as int) ==> result == Err::<(), BatchError>(
                BatchError::NotInFlight,
            ),
    {
        proof {
            lemma_apply_wf(self@, BatchEvent::Resolve { index: index as int, outcome });
            lemma_count_facts(self@.statuses);
        }
        if index >= self.statuses.len() {
            return Err(BatchError::NotInFlight);
        }
        match self.statuses[index] {
            OperationStatus::InFlight => {},
            _ => {
                return Err(BatchError::NotInFlight);
            },
        }
        let to = match outcome {
            OperationOutcome::Succeeded => OperationStatus::Succeeded,
            OperationOutcome::Failed => OperationStatus::Failed,
        };
        proof {
            lemma_count_update(self@.statuses, index as int, to, OperationStatus::Pending);
            lemma_count_update(self@.statuses, index as int, to, OperationStatus::InFlight);
            lemma_count_update(self@.statuses, index as int, to, OperationStatus::Succeeded);
            lemma_count_update(self@.statuses, index as int, to, OperationStatus::Failed);
        }
        self.statuses.set(index, to);
        self.in_flight = self.in_flight - 1;
        self.resolved = self.resolved + 1;
        Ok(())
    }

    /// How many operations the batch has.
    pub fn operations(&self) -> (operations: usize)
        ensures
            operations == self@.operations(),
    {
        self.statuses.len()
    }

    /// The most operations that may be in flight at once.
    pub fn limit(&self) -> (limit: usize)
        ensures
            limit == self@.limit,
    {
        self.limit
    }

    /// How many operations are in flight.
    pub fn in_flight(&self) -> (in_flight: usize)
        requires
            self.wf(),
        ensures
            in_flight == self@.in_flight(),
            in_flight <= self@.limit,
    {
        self.in_flight
    }

    /// How many operations are resolved.
    pub fn resolved(&self) -> (resolved: usize)
        requires
            self.wf(),
        ensures
            resolved == self@.resolved(),
    {
        self.resolved
    }

    /// Where the operation at `index` stands, if the batch has one there.
    pub fn status(&self, index: usize) -> (status: Option<OperationStatus>)
        ensures
            index < self@.operations() ==> status == Some(self@.statuses[index as int]),
            index >= self@.operations() ==> status is None,
    {
        if index < self.statuses.len() {
            Some(self.statuses[index])
        } else {
            None
        }
    }
}

} // verus!
