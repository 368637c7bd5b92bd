//! The shard consumer: the life of one consumer from start to its terminal
//! callback, as a machine that is told what happened and answers what to do
//! next.
use vstd::prelude::*;
use crate::lease::ShardInfo;

verus! {

/// Where a consumer stands in its life.
#[derive(Debug, Clone, Copy, PartialEq, Eq, Structural)]
pub enum ConsumerStage {
    /// Created, not yet started.
    New,
    /// The processor's `initialize` is running.
    Initializing,
    /// Subscribed to the shard and waiting for the next event.
    Subscribed,
    /// Subscribed, with a batch handed to the processor. `last` says that the
    /// batch came with the end of the shard.
    Processing { last: bool },
    /// The terminal callback is running.
    Draining,
    /// The terminal callback has returned.
    Done,
}

/// What a consumer is told.
#[derive(Debug, Clone, Copy, PartialEq, Eq, Structural)]
pub enum ConsumerEvent {
    /// The consumer was started.
    Start,
    /// The processor's `initialize` returned.
    Initialized,
    /// The subscription delivered a batch.
    Batch { is_at_shard_end: bool },
    /// The processor's `process_records` returned.
    Processed,
    /// The subscription failed with a transient error.
    SubscriptionFailed,
    /// The subscription closed without reaching the end of the shard.
    SubscriptionClosed,
    /// The worker is shutting down.
    ShutdownSignal,
    /// The lease of the shard was lost.
    LeaseLostSignal,
    /// The terminal callback returned.
    CallbackReturned,
}

/// What a consumer does next.
#[derive(Debug, Clone, Copy, PartialEq, Eq, Structural)]
pub enum ConsumerAction {
    /// Nothing: keep waiting for what is under way.
    Wait,
    /// Call the processor's `initialize`.
    Initialize,
    /// Open the subscription.
    Subscribe,
    /// Open the subscription again after a pause.
    Resubscribe { delay_millis: u64 },
    /// Hand the batch to the processor's `process_records`.
    Process,
    /// Wait for the next event of the subscription.
    Receive,
    /// Call the processor's `lease_lost`.
    LeaseLost,
    /// Call the processor's `shard_ended`.
    ShardEnded,
    /// Call the processor's `shutdown_requested`.
    ShutdownRequested,
    /// Tell those who wait that the consumer is done.
    Finish,
}

/// A subscription is given up after this many failures in a row.
pub const MAX_SUBSCRIBE_ATTEMPTS: u32 = 5;

/// The first pause before a new subscription, in milliseconds.
pub const FIRST_BACKOFF_MILLIS: u64 = 100;

/// The longest pause before a new subscription, in milliseconds.
pub const MAX_BACKOFF_MILLIS: u64 = 10000;

/// The state of a consumer.
#[derive(Debug, Clone, Copy, PartialEq, Eq, Structural)]
pub struct ConsumerState {
    pub stage: ConsumerStage,
    pub should_shutdown: bool,
    pub lease_lost: bool,
    pub failed_attempts: u32,
}

/// The pause before subscription attempt number `failures + 1`: 100 ms after
/// the first failure, doubled with each further one, and at most 10 s.
pub open spec fn backoff_millis(failures: nat) -> nat
    decreases failures,
{
    if failures <= 1 {
        FIRST_BACKOFF_MILLIS as nat
    } else {
        let doubled = 2 * backoff_millis((failures - 1) as nat);
        if doubled > MAX_BACKOFF_MILLIS {
            MAX_BACKOFF_MILLIS as nat
        } else {
            doubled
        }
    }
}

/// Whether an action is one of the three terminal callbacks.
pub open spec fn is_terminal(action: ConsumerAction) -> bool {
    action == ConsumerAction::LeaseLost || action == ConsumerAction::ShardEnded || action
        == ConsumerAction::ShutdownRequested
}

/// The terminal callback owed by a consumer that stops now: `lease_lost` if
/// the lease is gone, else `shutdown_requested` if the worker shuts down,
/// else `fallback`.
pub open spec fn closing_action(state: ConsumerState, fallback: ConsumerAction) -> ConsumerAction {
    if state.lease_lost {
        ConsumerAction::LeaseLost
    } else if state.should_shutdown {
        ConsumerAction::ShutdownRequested
    } else {
        fallback
    }
}

/// The state with another stage.
pub open spec fn at_stage(state: ConsumerState, stage: ConsumerStage) -> ConsumerState {
    ConsumerState { stage, ..state }
}

/// The state a consumer moves to, and what it does, when told `event`.
///
/// Signals are remembered in every stage. They are acted on when the
/// consumer is between two steps: at once while it waits for the
/// subscription, else when the step under way returns. An event that does
/// not belong to the stage changes nothing.
pub open spec fn next(state: ConsumerState, event: ConsumerEvent) -> (ConsumerState, ConsumerAction) {
    let flagged = match event {
        ConsumerEvent::ShutdownSignal => ConsumerState { should_shutdown: true, ..state },
        ConsumerEvent::LeaseLostSignal => ConsumerState { lease_lost: true, ..state },
        _ => state,
    };
    let stopping = flagged.lease_lost || flagged.should_shutdown;
    match (state.stage, event) {
        (ConsumerStage::New, ConsumerEvent::Start) => (
            at_stage(state, ConsumerStage::Initializing),
            ConsumerAction::Initialize,
        ),
        (ConsumerStage::Initializing, ConsumerEvent::Initialized) => if stopping {
            (
                at_stage(state, ConsumerStage::Draining),
                closing_action(state, ConsumerAction::ShutdownRequested),
            )
        } else {
            (at_stage(state, ConsumerStage::Subscribed), ConsumerAction::Subscribe)
        },
        (ConsumerStage::Subscribed, ConsumerEvent::Batch { is_at_shard_end }) => (
            ConsumerState {
                stage: ConsumerStage::Processing { last: is_at_shard_end },
                failed_attempts: 0,
                ..state
            },
            ConsumerAction::Process,
        ),
        (ConsumerStage::Subscribed, ConsumerEvent::SubscriptionFailed) => if state.failed_attempts
            + 1 >= MAX_SUBSCRIBE_ATTEMPTS {
            (at_stage(state, ConsumerStage::Draining), ConsumerAction::LeaseLost)
        } else {
            (
                ConsumerState { failed_attempts: (state.failed_attempts + 1) as u32, ..state },
                ConsumerAction::Resubscribe {
                    delay_millis: backoff_millis((state.failed_attempts + 1) as nat) as u64,
                },
            )
        },
        (ConsumerStage::Subscribed, ConsumerEvent::SubscriptionClosed) => (
            at_stage(state, ConsumerStage::Draining),
            ConsumerAction::ShutdownRequested,
        ),
        (ConsumerStage::Subscribed, ConsumerEvent::ShutdownSignal) => (
            at_stage(flagged, ConsumerStage::Draining),
            closing_action(flagged, ConsumerAction::ShutdownRequested),
        ),
        (ConsumerStage::Subscribed, ConsumerEvent::LeaseLostSignal) => (
            at_stage(flagged, ConsumerStage::Draining),
            closing_action(flagged, ConsumerAction::ShutdownRequested),
        ),
        (ConsumerStage::Processing { last }, ConsumerEvent::Processed) => if stopping || last {
            (
                at_stage(state, ConsumerStage::Draining),
                closing_action(state, ConsumerAction::ShardEnded),
            )
        } else {
            (at_stage(state, ConsumerStage::Subscribed), ConsumerAction::Receive)
        },
        (ConsumerStage::Draining, ConsumerEvent::CallbackReturned) => (
            at_stage(state, ConsumerStage::Done),
            ConsumerAction::Finish,
        ),
        _ => (flagged, ConsumerAction::Wait),
    }
}

/// Computes [`backoff_millis`].
pub fn compute_backoff(failures: u32) -> (millis: u64)
    ensures
        millis == backoff_millis(failures as nat),
        FIRST_BACKOFF_MILLIS <= millis <= MAX_BACKOFF_MILLIS,
{
    let mut millis: u64 = FIRST_BACKOFF_MILLIS;
    let mut done: u32 = 1;
    while done < failures
        invariant
            done >= 1,
            done <= failures || (failures == 0 && done == 1),
            millis == backoff_millis(done as nat),
            FIRST_BACKOFF_MILLIS <= millis <= MAX_BACKOFF_MILLIS,
        decreases failures - done,
    {
        let doubled = 2 * millis;
        millis = if doubled > MAX_BACKOFF_MILLIS {
            MAX_BACKOFF_MILLIS
        } else {
            doubled
        };
        done += 1;
    }
    assert(backoff_millis(0) == backoff_millis(1));
    millis
}

/// The consumer of one shard.
pub struct ShardWorker {
    pub shard_info: ShardInfo,
    pub state: ConsumerState,
}

impl ShardWorker {
    /// A consumer for `shard_info` that has not started.
    pub fn new(shard_info: ShardInfo) -> (worker: ShardWorker)
        ensures
            worker.shard_info == shard_info,
            worker.state == (ConsumerState {
                stage: ConsumerStage::New,
                should_shutdown: false,
                lease_lost: false,
                failed_attempts: 0,
            }),
    {
        ShardWorker {
            shard_info,
            state: ConsumerState {
                stage: ConsumerStage::New,
                should_shutdown: false,
                lease_lost: false,
                failed_attempts: 0,
            },
        }
    }

    /// Tells the consumer what happened and returns what it does next.
    pub fn step(&mut self, event: ConsumerEvent) -> (action: ConsumerAction)
        ensures
            (final(self).state, action) == next(old(self).state, event),
            final(self).shard_info == old(self).shard_info,
    {
        let state = self.state;
        let flagged = match event {
            ConsumerEvent::ShutdownSignal => ConsumerState { should_shutdown: true, ..state },
            ConsumerEvent::LeaseLostSignal => ConsumerState { lease_lost: true, ..state },
            _ => state,
        };
        let stopping = flagged.lease_lost || flagged.should_shutdown;
        let (after, action) = match (state.stage, event) {
            (ConsumerStage::New, ConsumerEvent::Start) => (
                with_stage(state, ConsumerStage::Initializing),
                ConsumerAction::Initialize,
            ),
            (ConsumerStage::Initializing, ConsumerEvent::Initialized) => if stopping {
                (
                    with_stage(state, ConsumerStage::Draining),
                    closing(state, ConsumerAction::ShutdownRequested),
                )
            } else {
                (with_stage(state, ConsumerStage::Subscribed), ConsumerAction::Subscribe)
            },
            (ConsumerStage::Subscribed, ConsumerEvent::Batch { is_at_shard_end }) => (
                ConsumerState {
                    stage: ConsumerStage::Processing { last: is_at_shard_end },
                    failed_attempts: 0,
                    ..state
                },
                ConsumerAction::Process,
            ),
            (ConsumerStage::Subscribed, ConsumerEvent::SubscriptionFailed) => {
                if state.failed_attempts >= MAX_SUBSCRIBE_ATTEMPTS - 1 {
                    (with_stage(state, ConsumerStage::Draining), ConsumerAction::LeaseLost)
                } else {
                    let failures = state.failed_attempts + 1;
                    (
                        ConsumerState { failed_attempts: failures, ..state },
                        ConsumerAction::Resubscribe { delay_millis: compute_backoff(failures) },
                    )
                }
            },
            (ConsumerStage::Subscribed, ConsumerEvent::SubscriptionClosed) => (
                with_stage(state, ConsumerStage::Draining),
                ConsumerAction::ShutdownRequested,
            ),
            (ConsumerStage::Subscribed, ConsumerEvent::ShutdownSignal) => (
                with_stage(flagged, ConsumerStage::Draining),
                closing(flagged, ConsumerAction::ShutdownRequested),
            ),
            (ConsumerStage::Subscribed, ConsumerEvent::LeaseLostSignal) => (
                with_stage(flagged, ConsumerStage::Draining),
                closing(flagged, ConsumerAction::ShutdownRequested),
            ),
            (ConsumerStage::Processing { last }, ConsumerEvent::Processed) => if stopping || last {
                (
                    with_stage(state, ConsumerStage::Draining),
                    closing(state, ConsumerAction::ShardEnded),
                )
            } else {
                (with_stage(state, ConsumerStage::Subscribed), ConsumerAction::Receive)
            },
            (ConsumerStage::Draining, ConsumerEvent::CallbackReturned) => (
                with_stage(state, ConsumerStage::Done),
                ConsumerAction::Finish,
            ),
            _ => (flagged, ConsumerAction::Wait),
        };
        self.state = after;
        action
    }

    /// Starts the consumer.
    pub fn start(&mut self) -> (action: ConsumerAction)
        ensures
            (final(self).state, action) == next(old(self).state, ConsumerEvent::Start),
            final(self).shard_info == old(self).shard_info,
    {
        self.step(ConsumerEvent::Start)
    }

    /// Asks the consumer to shut down.
    pub fn await_shutdown(&mut self) -> (action: ConsumerAction)
        ensures
            (final(self).state, action) == next(old(self).state, ConsumerEvent::ShutdownSignal),
            final(self).shard_info == old(self).shard_info,
    {
        self.step(ConsumerEvent::ShutdownSignal)
    }

    /// Whether the consumer is done: its terminal callback has returned.
    pub fn is_shutdown(&self) -> (done: bool)
        ensures
            done == (self.state.stage == ConsumerStage::Done),
    {
        match self.state.stage {
            ConsumerStage::Done => true,
            _ => false,
        }
    }
}

/// Computes [`at_stage`].
fn with_stage(state: ConsumerState, stage: ConsumerStage) -> (moved: ConsumerState)
    ensures
        moved == at_stage(state, stage),
{
    ConsumerState { stage, ..state }
}

/// Computes [`closing_action`].
fn closing(state: ConsumerState, fallback: ConsumerAction) -> (action: ConsumerAction)
    ensures
        action == closing_action(state, fallback),
{
    if state.lease_lost {
        ConsumerAction::LeaseLost
    } else if state.should_shutdown {
        ConsumerAction::ShutdownRequested
    } else {
        fallback
    }
}

/// The state of a consumer that has not started.
pub open spec fn fresh_consumer() -> ConsumerState {
    ConsumerState {
        stage: ConsumerStage::New,
        should_shutdown: false,
        lease_lost: false,
        failed_attempts: 0,
    }
}

/// The state reached and the actions taken, in order, when a consumer in
/// `state` is told `events` one after another.
pub open spec fn run(state: ConsumerState, events: Seq<ConsumerEvent>) -> (
    ConsumerState,
    Seq<ConsumerAction>,
)
    decreases events.len(),
{
    if events.len() == 0 {
        (state, Seq::empty())
    } else {
        let before = run(state, events.drop_last());
        let step = next(before.0, events.last());
        (step.0, before.1.push(step.1))
    }
}

/// Number of terminal callbacks among `actions`.
pub open spec fn terminal_count(actions: Seq<ConsumerAction>) -> nat
    decreases actions.len(),
{
    if actions.len() == 0 {
        0
    } else {
        let last: nat = if is_terminal(actions.last()) {
            1
        } else {
            0
        };
        terminal_count(actions.drop_last()) + last
    }
}

/// Whether a stage lies at or after the terminal callback.
pub open spec fn is_closing(stage: ConsumerStage) -> bool {
    stage == ConsumerStage::Draining || stage == ConsumerStage::Done
}

/// What holds of a consumer and the actions it has taken since it was
/// created.
pub open spec fn lifecycle_holds(state: ConsumerState, actions: Seq<ConsumerAction>) -> bool {
    &&& terminal_count(actions) == if is_closing(state.stage) {
        1nat
    } else {
        0nat
    }
    &&& state.stage != ConsumerStage::New <==> exists|j: int|
        0 <= j < actions.len() && #[trigger] actions[j] == ConsumerAction::Initialize
    &&& forall|i: int, j: int|
        0 <= i < actions.len() && 0 <= j < actions.len() && is_terminal(#[trigger] actions[i]) && (
        #[trigger] actions[j] == ConsumerAction::Process || actions[j]
            == ConsumerAction::Initialize) ==> j < i
}

/// Actions without a terminal callback counted hold none.
pub proof fn lemma_no_terminal(actions: Seq<ConsumerAction>)
    requires
        terminal_count(actions) == 0,
    ensures
        forall|i: int| 0 <= i < actions.len() ==> !is_terminal(#[trigger] actions[i]),
    decreases actions.len(),
{
    if actions.len() > 0 {
        lemma_no_terminal(actions.drop_last());
        assert forall|i: int| 0 <= i < actions.len() implies !is_terminal(
            #[trigger] actions[i],
        ) by {
            if i < actions.len() - 1 {
                assert(actions.drop_last()[i] == actions[i]);
            }
        }
    }
}

/// One step keeps what holds of a consumer's life.
pub proof fn lemma_lifecycle_step(
    state: ConsumerState,
    actions: Seq<ConsumerAction>,
    event: ConsumerEvent,
)
    requires
        lifecycle_holds(state, actions),
    ensures
        lifecycle_holds(next(state, event).0, actions.push(next(state, event).1)),
{
    let after = next(state, event).0;
    let action = next(state, event).1;
    let grown = actions.push(action);
    assert(grown.drop_last() =~= actions);
    if !is_closing(state.stage) {
        lemma_no_terminal(actions);
    }
    if state.stage != ConsumerStage::New {
        let j = choose|j: int|
            0 <= j < actions.len() && #[trigger] actions[j] == ConsumerAction::Initialize;
        assert(grown[j] == ConsumerAction::Initialize);
    }
    if after.stage != ConsumerStage::New && state.stage == ConsumerStage::New {
        assert(grown[actions.len() as int] == ConsumerAction::Initialize);
    }
    if after.stage == ConsumerStage::New {
        assert forall|j: int| 0 <= j < grown.len() implies #[trigger] grown[j]
            != ConsumerAction::Initialize by {
            if j < actions.len() {
                assert(actions[j] == grown[j]);
            }
        }
    }
    assert forall|i: int, j: int|
        0 <= i < grown.len() && 0 <= j < grown.len() && is_terminal(#[trigger] grown[i]) && (
        #[trigger] grown[j] == ConsumerAction::Process || grown[j]
            == ConsumerAction::Initialize) implies j < i by {
        if i < actions.len() && j < actions.len() {
            assert(actions[i] == grown[i]);
            assert(actions[j] == grown[j]);
        } else if i < actions.len() {
            assert(actions[i] == grown[i]);
        }
    }
}

/// Whatever a consumer is told from its creation on, it makes at most one
/// terminal callback, and has made exactly one once it drains or is done.
/// The terminal callback comes after `initialize` and after every
/// `process_records`.
pub proof fn lemma_consumer_lifecycle(events: Seq<ConsumerEvent>)
    ensures
        lifecycle_holds(run(fresh_consumer(), events).0, run(fresh_consumer(), events).1),
        run(fresh_consumer(), events).0.stage == ConsumerStage::Done ==> terminal_count(
            run(fresh_consumer(), events).1,
        ) == 1,
        forall|i: int|
            0 <= i < run(fresh_consumer(), events).1.len() && is_terminal(
                #[trigger] run(fresh_consumer(), events).1[i],
            ) ==> exists|j: int|
                0 <= j < i && #[trigger] run(fresh_consumer(), events).1[j]
                    == ConsumerAction::Initialize,
    decreases events.len(),
{
    let actions = run(fresh_consumer(), events).1;
    let state = run(fresh_consumer(), events).0;
    if events.len() > 0 {
        lemma_consumer_lifecycle(events.drop_last());
        let before = run(fresh_consumer(), events.drop_last());
        lemma_lifecycle_step(before.0, before.1, events.last());
    }
    assert forall|i: int| 0 <= i < actions.len() && is_terminal(#[trigger] actions[i]) implies exists|
        j: int,
    | 0 <= j < i && #[trigger] actions[j] == ConsumerAction::Initialize by {
        if !is_closing(state.stage) {
            lemma_no_terminal(actions);
        }
        let j = choose|j: int|
            0 <= j < actions.len() && #[trigger] actions[j] == ConsumerAction::Initialize;
        assert(j < i);
    }
}

} // verus!
