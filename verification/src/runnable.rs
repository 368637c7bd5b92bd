//! The periodic-task harness: when a periodic task runs, how long it sleeps
//! between runs, and how it winds down on shutdown.
use vstd::prelude::*;

verus! {

/// How the pause between two runs is measured.
#[derive(Debug, Clone, Copy, PartialEq, Eq, Structural)]
pub enum Cadence {
    /// A full period passes between the end of one run and the start of the
    /// next.
    FixedDelay,
    /// A period passes between the starts of two runs; a run that takes
    /// longer than the period is followed by the next at once.
    FixedInterval,
}

/// Where a periodic task stands.
#[derive(Debug, Clone, Copy, PartialEq, Eq, Structural)]
pub enum LoopPhase {
    /// Not yet begun.
    Idle,
    /// A run is under way.
    Running,
    /// Asleep between two runs.
    Sleeping,
    /// The loop has ended and the hook before completion is under way.
    Finishing,
    /// Completion has been announced.
    Finished,
}

/// What a periodic task is told.
#[derive(Debug, Clone, Copy, PartialEq, Eq, Structural)]
pub enum LoopEvent {
    /// The task was spawned.
    Begin,
    /// The run under way returned after `elapsed_nanos`.
    RunDone { elapsed_nanos: u64 },
    /// The sleep ran its full length.
    SleepDone,
    /// Shutdown was signalled.
    Shutdown,
    /// The hook before completion returned.
    HookDone,
}

/// What a periodic task does next.
#[derive(Debug, Clone, Copy, PartialEq, Eq, Structural)]
pub enum LoopAction {
    /// Nothing: keep waiting for what is under way.
    Wait,
    /// Run the task's body once.
    Run,
    /// Sleep, unless shutdown is signalled first.
    Sleep { nanos: u64 },
    /// Call the hook that runs before completion.
    BeforeShutdownComplete,
    /// Tell those who wait that the task has completed.
    NotifyShutdownComplete,
}

/// The state of a periodic task. `shutdown` stays set once shutdown has been
/// signalled, so that a task that looks later still sees it.
#[derive(Debug, Clone, Copy, PartialEq, Eq, Structural)]
pub struct PeriodicTask {
    pub cadence: Cadence,
    pub period_nanos: u64,
    pub phase: LoopPhase,
    pub shutdown: bool,
}

/// The sleep that follows a run which took `elapsed_nanos`: the full period
/// under fixed delay, and what is left of the period under fixed interval.
pub open spec fn sleep_after(cadence: Cadence, period_nanos: u64, elapsed_nanos: u64) -> u64 {
    match cadence {
        Cadence::FixedDelay => period_nanos,
        Cadence::FixedInterval => if elapsed_nanos < period_nanos {
            (period_nanos - elapsed_nanos) as u64
        } else {
            0
        },
    }
}

/// The task in another phase.
pub open spec fn in_phase(task: PeriodicTask, phase: LoopPhase) -> PeriodicTask {
    PeriodicTask { phase, ..task }
}

/// The state a periodic task moves to, and what it does, when told `event`.
///
/// A shutdown signal ends a sleep at once and lets a run under way return
/// first. The loop ends where it would otherwise run or sleep again; the
/// hook is then called, and after it completion is announced. An event that
/// does not belong to the phase changes nothing.
pub open spec fn next_step(task: PeriodicTask, event: LoopEvent) -> (PeriodicTask, LoopAction) {
    let run_or_finish = if task.shutdown {
        (in_phase(task, LoopPhase::Finishing), LoopAction::BeforeShutdownComplete)
    } else {
        (in_phase(task, LoopPhase::Running), LoopAction::Run)
    };
    match (task.phase, event) {
        (LoopPhase::Idle, LoopEvent::Begin) => run_or_finish,
        (LoopPhase::Sleeping, LoopEvent::SleepDone) => run_or_finish,
        (LoopPhase::Running, LoopEvent::RunDone { elapsed_nanos }) => if task.shutdown
            || sleep_after(task.cadence, task.period_nanos, elapsed_nanos) == 0 {
            run_or_finish
        } else {
            (
                in_phase(task, LoopPhase::Sleeping),
                LoopAction::Sleep {
                    nanos: sleep_after(task.cadence, task.period_nanos, elapsed_nanos),
                },
            )
        },
        (LoopPhase::Sleeping, LoopEvent::Shutdown) => (
            PeriodicTask { phase: LoopPhase::Finishing, shutdown: true, ..task },
            LoopAction::BeforeShutdownComplete,
        ),
        (LoopPhase::Finishing, LoopEvent::HookDone) => (
            in_phase(task, LoopPhase::Finished),
            LoopAction::NotifyShutdownComplete,
        ),
        (_, LoopEvent::Shutdown) => (PeriodicTask { shutdown: true, ..task }, LoopAction::Wait),
        _ => (task, LoopAction::Wait),
    }
}

/// Computes [`sleep_after`].
pub fn compute_sleep(cadence: Cadence, period_nanos: u64, elapsed_nanos: u64) -> (nanos: u64)
    ensures
        nanos == sleep_after(cadence, period_nanos, elapsed_nanos),
{
    match cadence {
        Cadence::FixedDelay => period_nanos,
        Cadence::FixedInterval => if elapsed_nanos < period_nanos {
            period_nanos - elapsed_nanos
        } else {
            0
        },
    }
}

impl PeriodicTask {
    /// A task that has not begun.
    pub fn new(cadence: Cadence, period_nanos: u64) -> (task: PeriodicTask)
        ensures
            task == (PeriodicTask { cadence, period_nanos, phase: LoopPhase::Idle, shutdown: false }),
    {
        PeriodicTask { cadence, period_nanos, phase: LoopPhase::Idle, shutdown: false }
    }

    /// Tells the task what happened and returns what it does next.
    pub fn step(&mut self, event: LoopEvent) -> (action: LoopAction)
        ensures
            (*final(self), action) == next_step(*old(self), event),
    {
        let task = *self;
        let (after, action) = match (task.phase, event) {
            (LoopPhase::Idle, LoopEvent::Begin) => run_or_finish(task),
            (LoopPhase::Sleeping, LoopEvent::SleepDone) => run_or_finish(task),
            (LoopPhase::Running, LoopEvent::RunDone { elapsed_nanos }) => {
                let nanos = compute_sleep(task.cadence, task.period_nanos, elapsed_nanos);
                if task.shutdown || nanos == 0 {
                    run_or_finish(task)
                } else {
                    (
                        PeriodicTask { phase: LoopPhase::Sleeping, ..task },
                        LoopAction::Sleep { nanos },
                    )
                }
            },
            (LoopPhase::Sleeping, LoopEvent::Shutdown) => (
                PeriodicTask { phase: LoopPhase::Finishing, shutdown: true, ..task },
                LoopAction::BeforeShutdownComplete,
            ),
            (LoopPhase::Finishing, LoopEvent::HookDone) => (
                PeriodicTask { phase: LoopPhase::Finished, ..task },
                LoopAction::NotifyShutdownComplete,
            ),
            (_, LoopEvent::Shutdown) => (PeriodicTask { shutdown: true, ..task }, LoopAction::Wait),
            _ => (task, LoopAction::Wait),
        };
        *self = after;
        action
    }

    /// Whether the task has announced its completion.
    pub fn is_finished(&self) -> (done: bool)
        ensures
            done == (self.phase == LoopPhase::Finished),
    {
        match self.phase {
            LoopPhase::Finished => true,
            _ => false,
        }
    }
}

/// Starts the next run, or ends the loop when shutdown has been signalled.
fn run_or_finish(task: PeriodicTask) -> (step: (PeriodicTask, LoopAction))
    ensures
        step == if task.shutdown {
            (in_phase(task, LoopPhase::Finishing), LoopAction::BeforeShutdownComplete)
        } else {
            (in_phase(task, LoopPhase::Running), LoopAction::Run)
        },
{
    if task.shutdown {
        (PeriodicTask { phase: LoopPhase::Finishing, ..task }, LoopAction::BeforeShutdownComplete)
    } else {
        (PeriodicTask { phase: LoopPhase::Running, ..task }, LoopAction::Run)
    }
}

/// The state reached and the actions taken when a task is told `events` one
/// after another.
pub open spec fn run_loop(task: PeriodicTask, events: Seq<LoopEvent>) -> (
    PeriodicTask,
    Seq<LoopAction>,
)
    decreases events.len(),
{
    if events.len() == 0 {
        (task, Seq::empty())
    } else {
        let before = run_loop(task, events.drop_last());
        let step = next_step(before.0, events.last());
        (step.0, before.1.push(step.1))
    }
}

/// How often `action` occurs among `actions`.
pub open spec fn occurrences(actions: Seq<LoopAction>, action: LoopAction) -> nat
    decreases actions.len(),
{
    if actions.len() == 0 {
        0
    } else {
        let last: nat = if actions.last() == action {
            1
        } else {
            0
        };
        occurrences(actions.drop_last(), action) + last
    }
}

/// What holds of a task and the actions it has taken since it was created.
pub open spec fn winds_down(task: PeriodicTask, actions: Seq<LoopAction>) -> bool {
    &&& occurrences(actions, LoopAction::BeforeShutdownComplete) == if task.phase
        == LoopPhase::Finishing || task.phase == LoopPhase::Finished {
        1nat
    } else {
        0nat
    }
    &&& occurrences(actions, LoopAction::NotifyShutdownComplete) == if task.phase
        == LoopPhase::Finished {
        1nat
    } else {
        0nat
    }
    &&& (task.phase == LoopPhase::Finishing || task.phase == LoopPhase::Finished) ==> task.shutdown
}

/// Whatever a task is told from its creation on, the hook before completion
/// is called at most once, completion is announced at most once and only
/// after the hook, and both have happened exactly once when the task has
/// finished. The loop ends only after shutdown was signalled.
pub proof fn lemma_winds_down(cadence: Cadence, period_nanos: u64, events: Seq<LoopEvent>)
    ensures
        winds_down(
            run_loop(
                PeriodicTask { cadence, period_nanos, phase: LoopPhase::Idle, shutdown: false },
                events,
            ).0,
            run_loop(
                PeriodicTask { cadence, period_nanos, phase: LoopPhase::Idle, shutdown: false },
                events,
            ).1,
        ),
    decreases events.len(),
{
    let start = PeriodicTask { cadence, period_nanos, phase: LoopPhase::Idle, shutdown: false };
    if events.len() > 0 {
        lemma_winds_down(cadence, period_nanos, events.drop_last());
        let before = run_loop(start, events.drop_last());
        let step = next_step(before.0, events.last());
        assert(before.1.push(step.1).drop_last() =~= before.1);
    }
}

} // verus!
