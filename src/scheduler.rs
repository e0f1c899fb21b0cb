//! The decisions of the test scheduler. One task builds and tests one
//! student's project; the runner performs each action that a task asks for
//! and hands back whether it succeeded. A batch runs one task per student
//! and records each outcome on its own.
use vstd::prelude::*;

use crate::paths::{str_eq, strs};

verus! {

/// What the runner finds before a task starts.
#[derive(Clone, Copy, Debug, PartialEq, Eq, Structural)]
pub struct TaskChecks {
    /// The project has been initialized.
    pub initialized: bool,
    /// The test is one of the project's tests.
    pub test_known: bool,
    /// The student has a stored diff.
    pub student_known: bool,
    /// A staging directory is left over from an earlier run.
    pub staging_exists: bool,
    /// A result is already stored for the student and test.
    pub result_exists: bool,
}

/// How a task ended.
#[derive(Clone, Copy, Debug, PartialEq, Eq, Structural)]
pub enum TaskOutcome {
    /// The result was stored before: nothing was built.
    Cached,
    /// The test ran and its report was stored.
    Completed,
    /// No project is initialized here.
    NotInitialized,
    /// The test is not one of the project's tests.
    UnknownTest,
    /// The student is not known.
    UnknownStudent,
    /// The project could not be rebuilt from the diff.
    ReconstructFailed,
    /// The student's project does not compile.
    CompileFailed,
    /// The test could not be run.
    RunFailed,
    /// The test's report could not be moved to the result store.
    RelocateFailed,
    /// The staging directory could not be removed.
    CleanupFailed,
    /// The project did not compile, and the compile error log could not be
    /// written.
    LogFailed,
}

/// Where a task stands.
#[derive(Clone, Copy, Debug, PartialEq, Eq, Structural)]
pub enum TaskState {
    /// Removing a staging directory left from an earlier run; `cached`
    /// tells whether a result was already stored.
    RemovingStale { cached: bool },
    Reconstructing,
    Compiling,
    RecordingCompileError,
    Running,
    Relocating,
    /// Removing the staging directory; the task then ends with `outcome`.
    CleaningUp { outcome: TaskOutcome },
    Finished { outcome: TaskOutcome },
}

/// What the runner is asked to do next.
#[derive(Clone, Copy, Debug, PartialEq, Eq, Structural)]
pub enum Action {
    /// Remove the staging directory.
    RemoveStaging,
    /// Rebuild the project in the staging directory from the stored diff.
    Reconstruct,
    /// Compile the staged project.
    Compile,
    /// Append the student to the compile error log.
    AppendCompileError,
    /// Run the test in the staged project.
    RunTest,
    /// Move the test's report to the result store.
    RelocateReport,
    /// Return the outcome to the caller.
    Report { outcome: TaskOutcome },
}

/// The first state and action of a task.
pub open spec fn begin_spec(c: TaskChecks) -> (TaskState, Action) {
    if !c.initialized {
        finish(TaskOutcome::NotInitialized)
    } else if !c.test_known {
        finish(TaskOutcome::UnknownTest)
    } else if !c.student_known {
        finish(TaskOutcome::UnknownStudent)
    } else if c.staging_exists {
        (TaskState::RemovingStale { cached: c.result_exists }, Action::RemoveStaging)
    } else if c.result_exists {
        finish(TaskOutcome::Cached)
    } else {
        (TaskState::Reconstructing, Action::Reconstruct)
    }
}

/// A task that ends now with `o`.
pub open spec fn finish(o: TaskOutcome) -> (TaskState, Action) {
    (TaskState::Finished { outcome: o }, Action::Report { outcome: o })
}

/// A task that removes its staging directory and then ends with `o`.
pub open spec fn clean_up(o: TaskOutcome) -> (TaskState, Action) {
    (TaskState::CleaningUp { outcome: o }, Action::RemoveStaging)
}

/// The next state and action once the last action succeeded (`ok`) or
/// failed.
pub open spec fn advance_spec(s: TaskState, ok: bool) -> (TaskState, Action) {
    match s {
        TaskState::RemovingStale { cached } => if !ok {
            finish(TaskOutcome::CleanupFailed)
        } else if cached {
            finish(TaskOutcome::Cached)
        } else {
            (TaskState::Reconstructing, Action::Reconstruct)
        },
        TaskState::Reconstructing => if ok {
            (TaskState::Compiling, Action::Compile)
        } else {
            clean_up(TaskOutcome::ReconstructFailed)
        },
        TaskState::Compiling => if ok {
            (TaskState::Running, Action::RunTest)
        } else {
            (TaskState::RecordingCompileError, Action::AppendCompileError)
        },
        TaskState::RecordingCompileError => if ok {
            clean_up(TaskOutcome::CompileFailed)
        } else {
            clean_up(TaskOutcome::LogFailed)
        },
        TaskState::Running => if ok {
            (TaskState::Relocating, Action::RelocateReport)
        } else {
            clean_up(TaskOutcome::RunFailed)
        },
        TaskState::Relocating => if ok {
            clean_up(TaskOutcome::Completed)
        } else {
            clean_up(TaskOutcome::RelocateFailed)
        },
        TaskState::CleaningUp { outcome } => if ok {
            finish(outcome)
        } else {
            finish(TaskOutcome::CleanupFailed)
        },
        TaskState::Finished { outcome } => finish(outcome),
    }
}

/// Starts a task: an uninitialized project, an unknown test or an unknown
/// student end it at once; a leftover staging directory is removed first;
/// a stored result ends it without building anything; else the project is
/// rebuilt.
pub fn begin(checks: TaskChecks) -> (r: (TaskState, Action))
    ensures
        r == begin_spec(checks),
{
    if !checks.initialized {
        (
            TaskState::Finished { outcome: TaskOutcome::NotInitialized },
            Action::Report { outcome: TaskOutcome::NotInitialized },
        )
    } else if !checks.test_known {
        (
            TaskState::Finished { outcome: TaskOutcome::UnknownTest },
            Action::Report { outcome: TaskOutcome::UnknownTest },
        )
    } else if !checks.student_known {
        (
            TaskState::Finished { outcome: TaskOutcome::UnknownStudent },
            Action::Report { outcome: TaskOutcome::UnknownStudent },
        )
    } else if checks.staging_exists {
        (TaskState::RemovingStale { cached: checks.result_exists }, Action::RemoveStaging)
    } else if checks.result_exists {
        (
            TaskState::Finished { outcome: TaskOutcome::Cached },
            Action::Report { outcome: TaskOutcome::Cached },
        )
    } else {
        (TaskState::Reconstructing, Action::Reconstruct)
    }
}

/// Moves a task on once its last action succeeded (`ok`) or failed. A
/// compile failure is logged, then the staging directory is removed; every
/// step after the project was rebuilt ends by removing it.
pub fn advance(state: TaskState, ok: bool) -> (r: (TaskState, Action))
    ensures
        r == advance_spec(state, ok),
{
    match state {
        TaskState::RemovingStale { cached } => {
            if !ok {
                (
                    TaskState::Finished { outcome: TaskOutcome::CleanupFailed },
                    Action::Report { outcome: TaskOutcome::CleanupFailed },
                )
            } else if cached {
                (
                    TaskState::Finished { outcome: TaskOutcome::Cached },
                    Action::Report { outcome: TaskOutcome::Cached },
                )
            } else {
                (TaskState::Reconstructing, Action::Reconstruct)
            }
        },
        TaskState::Reconstructing => {
            if ok {
                (TaskState::Compiling, Action::Compile)
            } else {
                (
                    TaskState::CleaningUp { outcome: TaskOutcome::ReconstructFailed },
                    Action::RemoveStaging,
                )
            }
        },
        TaskState::Compiling => {
            if ok {
                (TaskState::Running, Action::RunTest)
            } else {
                (TaskState::RecordingCompileError, Action::AppendCompileError)
            }
        },
        TaskState::RecordingCompileError => {
            if ok {
                (
                    TaskState::CleaningUp { outcome: TaskOutcome::CompileFailed },
                    Action::RemoveStaging,
                )
            } else {
                (TaskState::CleaningUp { outcome: TaskOutcome::LogFailed }, Action::RemoveStaging)
            }
        },
        TaskState::Running => {
            if ok {
                (TaskState::Relocating, Action::RelocateReport)
            } else {
                (TaskState::CleaningUp { outcome: TaskOutcome::RunFailed }, Action::RemoveStaging)
            }
        },
        TaskState::Relocating => {
            if ok {
                (TaskState::CleaningUp { outcome: TaskOutcome::Completed }, Action::RemoveStaging)
            } else {
                (
                    TaskState::CleaningUp { outcome: TaskOutcome::RelocateFailed },
                    Action::RemoveStaging,
                )
            }
        },
        TaskState::CleaningUp { outcome } => {
            if ok {
                (TaskState::Finished { outcome }, Action::Report { outcome })
            } else {
                (
                    TaskState::Finished { outcome: TaskOutcome::CleanupFailed },
                    Action::Report { outcome: TaskOutcome::CleanupFailed },
                )
            }
        },
        TaskState::Finished { outcome } => (TaskState::Finished { outcome }, Action::Report { outcome }),
    }
}

/// What a task can change on disk for its student and test.
pub struct World {
    /// The staging directory exists.
    pub staging: bool,
    /// A result is stored.
    pub result: bool,
    /// The compile error log names the student.
    pub compile_logged: bool,
}

/// The checks that a runner makes on `w` in an initialized project, for a
/// known student and test.
pub open spec fn checks_of(w: World) -> TaskChecks {
    TaskChecks {
        initialized: true,
        test_known: true,
        student_known: true,
        staging_exists: w.staging,
        result_exists: w.result,
    }
}

/// What performing `a` does to `w`, where it succeeded (`ok`) or failed. A
/// failed rebuild may leave a partial staging directory.
pub open spec fn effect(w: World, a: Action, ok: bool) -> World {
    match a {
        Action::RemoveStaging => if ok {
            World { staging: false, ..w }
        } else {
            w
        },
        Action::Reconstruct => World { staging: true, ..w },
        Action::AppendCompileError => if ok {
            World { compile_logged: true, ..w }
        } else {
            w
        },
        Action::RelocateReport => if ok {
            World { result: true, ..w }
        } else {
            w
        },
        _ => w,
    }
}

/// A task run from state `s` with pending action `a` on `w`, where the
/// actions succeed as `outs` says in turn: the world afterwards, the
/// actions asked for, and the last state.
pub open spec fn run_from(s: TaskState, a: Action, w: World, outs: Seq<bool>) -> (
    World,
    Seq<Action>,
    TaskState,
)
    decreases outs.len(),
{
    if a is Report || outs.len() == 0 {
        (w, seq![a], s)
    } else {
        let next = advance_spec(s, outs[0]);
        let rest = run_from(next.0, next.1, effect(w, a, outs[0]), outs.drop_first());
        (rest.0, seq![a] + rest.1, rest.2)
    }
}

/// A whole task on `w`.
pub open spec fn run_task(w: World, outs: Seq<bool>) -> (World, Seq<Action>, TaskState) {
    let first = begin_spec(checks_of(w));
    run_from(first.0, first.1, w, outs)
}

/// Whether a task has ended with `o`.
pub open spec fn ended_with(s: TaskState, o: TaskOutcome) -> bool {
    s == (TaskState::Finished { outcome: o })
}

/// Whether a task has ended.
pub open spec fn ended(s: TaskState) -> bool {
    s is Finished
}

/// Whether an action builds or tests anything.
pub open spec fn builds(a: Action) -> bool {
    a is Reconstruct || a is Compile || a is RunTest || a is AppendCompileError
}

proof fn lemma_cached_run(w: World, outs: Seq<bool>)
    requires
        w.result,
    ensures
        ({
            let r = run_task(w, outs);
            &&& forall|i: int| 0 <= i < r.1.len() ==> !builds(#[trigger] r.1[i])
            &&& r.0.result
            &&& r.0.compile_logged == w.compile_logged
            &&& (ended_with(r.2, TaskOutcome::Cached) ==> !r.0.staging)
            &&& (ended_with(r.2, TaskOutcome::Cached) || ended_with(r.2, TaskOutcome::CleanupFailed)
                || !ended(r.2))
        }),
{
    let first = begin_spec(checks_of(w));
    let r = run_task(w, outs);
    if w.staging {
        if outs.len() > 0 {
            let next = advance_spec(first.0, outs[0]);
            let w1 = effect(w, first.1, outs[0]);
            assert(run_from(next.0, next.1, w1, outs.drop_first()) == (w1, seq![next.1], next.0));
            assert(r == (w1, seq![first.1] + seq![next.1], next.0));
            assert(r.1 =~= seq![first.1, next.1]);
        } else {
            assert(r == (w, seq![first.1], first.0));
        }
    } else {
        assert(r == (w, seq![first.1], first.0));
    }
}

/// Running a task whose result is already stored builds nothing, leaves the
/// compile error log alone and keeps the result; where it ends as a cache
/// hit, no staging directory is left. The runner's second task for a
/// student and test therefore only reads the cache.
pub proof fn lemma_stored_result_is_only_read(w: World, outs: Seq<bool>)
    requires
        w.result,
    ensures
        forall|i: int|
            0 <= i < run_task(w, outs).1.len() ==> !builds(#[trigger] run_task(w, outs).1[i]),
        run_task(w, outs).0.result,
        run_task(w, outs).0.compile_logged == w.compile_logged,
        ended_with(run_task(w, outs).2, TaskOutcome::Cached) ==> !run_task(w, outs).0.staging,
        ended(run_task(w, outs).2) ==> ended_with(run_task(w, outs).2, TaskOutcome::Cached)
            || ended_with(run_task(w, outs).2, TaskOutcome::CleanupFailed),
{
    lemma_cached_run(w, outs);
}

/// A task state after its project began to be rebuilt, with the action it
/// asks for and what holds on disk there.
pub open spec fn in_flight(s: TaskState, a: Action, w: World) -> bool {
    match s {
        TaskState::Finished { outcome } => a == (Action::Report { outcome }) && outcome
            != TaskOutcome::Cached && (outcome != TaskOutcome::CleanupFailed ==> !w.staging) && (
        outcome == TaskOutcome::Completed ==> w.result) && (outcome == TaskOutcome::CompileFailed
            ==> w.compile_logged),
        TaskState::CleaningUp { outcome } => a == Action::RemoveStaging && outcome
            != TaskOutcome::Cached && outcome != TaskOutcome::CleanupFailed && (outcome
            == TaskOutcome::Completed ==> w.result) && (outcome == TaskOutcome::CompileFailed
            ==> w.compile_logged),
        TaskState::RecordingCompileError => a == Action::AppendCompileError,
        TaskState::Relocating => a == Action::RelocateReport,
        TaskState::Running => a == Action::RunTest,
        TaskState::Compiling => a == Action::Compile,
        TaskState::Reconstructing => a == Action::Reconstruct,
        TaskState::RemovingStale { .. } => false,
    }
}

proof fn lemma_run_from_finished(s: TaskState, a: Action, w: World, outs: Seq<bool>)
    requires
        in_flight(s, a, w),
    ensures
        ({
            let r = run_from(s, a, w, outs);
            &&& ended(r.2) && !ended_with(r.2, TaskOutcome::CleanupFailed) ==> !r.0.staging
            &&& ended_with(r.2, TaskOutcome::Completed) ==> r.0.result
            &&& ended_with(r.2, TaskOutcome::CompileFailed) ==> r.0.compile_logged
            &&& !ended_with(r.2, TaskOutcome::Cached)
        }),
    decreases outs.len(),
{
    if a is Report || outs.len() == 0 {
    } else {
        let next = advance_spec(s, outs[0]);
        lemma_run_from_finished(next.0, next.1, effect(w, a, outs[0]), outs.drop_first());
    }
}

/// A task that ends as completed has stored its result, and one that ends
/// on a compile failure has logged it (a log that cannot be written ends the
/// task otherwise). Any task that ends without a cleanup failure, whatever
/// else happened, leaves no staging directory.
pub proof fn lemma_task_leaves_no_staging(w: World, outs: Seq<bool>)
    ensures
        ended(run_task(w, outs).2) && !ended_with(run_task(w, outs).2, TaskOutcome::CleanupFailed)
            ==> !run_task(w, outs).0.staging,
        ended_with(run_task(w, outs).2, TaskOutcome::Completed) ==> run_task(w, outs).0.result,
        ended_with(run_task(w, outs).2, TaskOutcome::CompileFailed) ==> run_task(
            w,
            outs,
        ).0.compile_logged,
        ended_with(run_task(w, outs).2, TaskOutcome::Cached) ==> run_task(w, outs).0.result,
{
    let first = begin_spec(checks_of(w));
    let r = run_task(w, outs);
    if w.result {
        lemma_cached_run(w, outs);
    } else if w.staging {
        if outs.len() > 0 {
            let next = advance_spec(first.0, outs[0]);
            let w1 = effect(w, first.1, outs[0]);
            let rest = run_from(next.0, next.1, w1, outs.drop_first());
            assert(r == (rest.0, seq![first.1] + rest.1, rest.2));
            if outs[0] {
                lemma_run_from_finished(next.0, next.1, w1, outs.drop_first());
            } else {
                assert(rest == (w1, seq![next.1], next.0));
            }
        } else {
            assert(r == (w, seq![first.1], first.0));
        }
    } else {
        lemma_run_from_finished(first.0, first.1, w, outs);
    }
}

/// Running one task twice: once the first run has completed, the second
/// asks for nothing but to report the cached result, so it builds nothing,
/// creates no staging directory and leaves the compile error log alone.
pub proof fn lemma_second_run_is_cached(w: World, first: Seq<bool>, second: Seq<bool>)
    requires
        ended_with(run_task(w, first).2, TaskOutcome::Completed),
    ensures
        run_task(run_task(w, first).0, second).1 == seq![Action::Report { outcome: TaskOutcome::Cached }],
        run_task(run_task(w, first).0, second).0 == run_task(w, first).0,
        ended_with(run_task(run_task(w, first).0, second).2, TaskOutcome::Cached),
{
    lemma_task_leaves_no_staging(w, first);
    let w1 = run_task(w, first).0;
    let start = begin_spec(checks_of(w1));
    assert(start == finish(TaskOutcome::Cached));
    assert(run_task(w1, second) == (w1, seq![start.1], start.0));
}

/// The number of actions, each succeeding, that take a task from `s` to
/// completion.
pub open spec fn steps_to_completion(s: TaskState) -> int {
    match s {
        TaskState::Reconstructing => 5,
        TaskState::Compiling => 4,
        TaskState::Running => 3,
        TaskState::Relocating => 2,
        TaskState::CleaningUp { .. } => 1,
        _ => 0,
    }
}

proof fn lemma_all_ok_completes(s: TaskState, a: Action, w: World, outs: Seq<bool>)
    requires
        in_flight(s, a, w),
        s is Reconstructing || s is Compiling || s is Running || s is Relocating || s == (
        TaskState::CleaningUp { outcome: TaskOutcome::Completed }) || s == (TaskState::Finished {
            outcome: TaskOutcome::Completed,
        }),
        outs.len() >= steps_to_completion(s),
        forall|i: int| 0 <= i < outs.len() ==> outs[i],
    ensures
        ended_with(run_from(s, a, w, outs).2, TaskOutcome::Completed),
    decreases outs.len(),
{
    if a is Report || outs.len() == 0 {
    } else {
        let next = advance_spec(s, outs[0]);
        let w1 = effect(w, a, outs[0]);
        assert(in_flight(next.0, next.1, w1));
        lemma_all_ok_completes(next.0, next.1, w1, outs.drop_first());
    }
}

/// A task without a stored result whose every action succeeds runs to
/// completion, given the six actions that the longest such run takes: its
/// result is then stored and its staging directory gone.
pub proof fn lemma_successful_task_completes(w: World, outs: Seq<bool>)
    requires
        !w.result,
        outs.len() >= 6,
        forall|i: int| 0 <= i < outs.len() ==> outs[i],
    ensures
        ended_with(run_task(w, outs).2, TaskOutcome::Completed),
        run_task(w, outs).0.result,
        !run_task(w, outs).0.staging,
{
    let first = begin_spec(checks_of(w));
    if w.staging {
        let next = advance_spec(first.0, outs[0]);
        let w1 = effect(w, first.1, outs[0]);
        lemma_all_ok_completes(next.0, next.1, w1, outs.drop_first());
    } else {
        lemma_all_ok_completes(first.0, first.1, w, outs);
    }
    lemma_task_leaves_no_staging(w, outs);
}

/// A batch: each student's task runs on that student's own world, its
/// actions succeeding as that student's sequence says.
pub open spec fn batch_run(worlds: Seq<World>, outs: Seq<Seq<bool>>) -> Seq<
    (World, Seq<Action>, TaskState),
> {
    Seq::new(worlds.len(), |i: int| run_task(worlds[i], outs[i]))
}

/// A compile failure of one student holds back no other: whatever happens
/// to the task of student `a`, the task of another student `b` whose
/// actions all succeed runs to completion and stores its result.
pub proof fn lemma_compile_failure_is_isolated(
    worlds: Seq<World>,
    outs: Seq<Seq<bool>>,
    a: int,
    b: int,
)
    requires
        worlds.len() == outs.len(),
        0 <= a < worlds.len(),
        0 <= b < worlds.len(),
        a != b,
        !worlds[b].result,
        outs[b].len() >= 6,
        forall|i: int| 0 <= i < outs[b].len() ==> outs[b][i],
    ensures
        ended_with(batch_run(worlds, outs)[b].2, TaskOutcome::Completed),
        batch_run(worlds, outs)[b].0.result,
        batch_run(worlds, outs)[b] == run_task(worlds[b], outs[b]),
{
    lemma_successful_task_completes(worlds[b], outs[b]);
}

/// Once a batch has ended in which every task completed, was cached, or
/// failed only at compiling, every student has a stored result or an entry
/// in the compile error log, and no staging directory is left; in any batch,
/// every task that ended without a cleanup failure left no staging
/// directory.
pub proof fn lemma_batch_leaves_results_or_log(worlds: Seq<World>, outs: Seq<Seq<bool>>)
    requires
        worlds.len() == outs.len(),
    ensures
        forall|i: int|
            0 <= i < worlds.len() && ended(#[trigger] batch_run(worlds, outs)[i].2)
                && !ended_with(batch_run(worlds, outs)[i].2, TaskOutcome::CleanupFailed)
                ==> !batch_run(worlds, outs)[i].0.staging,
        (forall|i: int|
            0 <= i < worlds.len() ==> ended_with(#[trigger] batch_run(worlds, outs)[i].2, TaskOutcome::Completed)
                || ended_with(batch_run(worlds, outs)[i].2, TaskOutcome::Cached) || ended_with(
                batch_run(worlds, outs)[i].2,
                TaskOutcome::CompileFailed,
            )) ==> forall|i: int|
            0 <= i < worlds.len() ==> (#[trigger] batch_run(worlds, outs)[i].0.result
                || batch_run(worlds, outs)[i].0.compile_logged) && !batch_run(
                worlds,
                outs,
            )[i].0.staging,
{
    assert forall|i: int| 0 <= i < worlds.len() implies {
        let r = #[trigger] batch_run(worlds, outs)[i];
        &&& (ended(r.2) && !ended_with(r.2, TaskOutcome::CleanupFailed) ==> !r.0.staging)
        &&& (ended_with(r.2, TaskOutcome::Completed) ==> r.0.result)
        &&& (ended_with(r.2, TaskOutcome::Cached) ==> r.0.result)
        &&& (ended_with(r.2, TaskOutcome::CompileFailed) ==> r.0.compile_logged)
    } by {
        lemma_task_leaves_no_staging(worlds[i], outs[i]);
    }
}

/// The outcome of every task of a batch, by student.
pub struct BatchRun {
    students: Vec<String>,
    outcomes: Vec<Option<TaskOutcome>>,
}

/// Why a batch cannot start.
#[derive(Clone, Copy, Debug, PartialEq, Eq, Structural)]
pub enum BatchError {
    /// The test is not one of the project's tests.
    UnknownTest,
    /// The test already ran for the whole batch.
    AlreadyRun,
}

impl BatchRun {
    /// The students of the batch, in order.
    pub closed spec fn students_view(&self) -> Seq<Seq<char>> {
        strs(self.students@)
    }

    /// The outcome recorded for each student so far.
    pub closed spec fn outcomes_view(&self) -> Seq<Option<TaskOutcome>> {
        self.outcomes@
    }

    /// One outcome slot per student.
    pub closed spec fn wf(&self) -> bool {
        self.students@.len() == self.outcomes@.len()
    }

    /// Starts a batch for `test` over `students`: refused where the test is
    /// unknown or its batch already ran.
    pub fn start(students: Vec<String>, test_known: bool, already_run: bool) -> (r: Result<
        BatchRun,
        BatchError,
    >)
        ensures
            !test_known ==> r == Err::<BatchRun, BatchError>(BatchError::UnknownTest),
            test_known && already_run ==> r == Err::<BatchRun, BatchError>(BatchError::AlreadyRun),
            test_known && !already_run ==> (r matches Ok(b) && b.wf() && b.students_view() == strs(
                students@,
            ) && b.outcomes_view().len() == b.students_view().len() && forall|i: int|
                0 <= i < b.outcomes_view().len() ==> b.outcomes_view()[i] is None),
    {
        if !test_known {
            return Err(BatchError::UnknownTest);
        }
        if already_run {
            return Err(BatchError::AlreadyRun);
        }
        let mut outcomes: Vec<Option<TaskOutcome>> = Vec::new();
        let mut i: usize = 0;
        while i < students.len()
            invariant
                i <= students@.len(),
                outcomes@.len() == i,
                forall|j: int| 0 <= j < i ==> outcomes@[j] is None,
            decreases students@.len() - i,
        {
            outcomes.push(None);
            i = i + 1;
        }
        Ok(BatchRun { students, outcomes })
    }

    /// The number of tasks.
    pub fn len(&self) -> (r: usize)
        requires
            self.wf(),
        ensures
            r == self.students_view().len(),
    {
        self.students.len()
    }

    /// The student of task `i`.
    pub fn student(&self, i: usize) -> (r: &String)
        requires
            self.wf(),
            i < self.students_view().len(),
        ensures
            r@ == self.students_view()[i as int],
    {
        &self.students[i]
    }

    /// Records how the task of `student` ended. The other tasks are left as
    /// they are: one student's failure holds back no one else's.
    pub fn record(&mut self, student: &str, outcome: TaskOutcome)
        requires
            old(self).wf(),
        ensures
            final(self).wf(),
            final(self).students_view() == old(self).students_view(),
            final(self).outcomes_view().len() == final(self).students_view().len(),
            old(self).outcomes_view().len() == old(self).students_view().len(),
            forall|i: int|
                0 <= i < old(self).outcomes_view().len() ==> #[trigger] final(self).outcomes_view()[i]
                    == if old(self).students_view()[i] == student@ {
                    Some(outcome)
                } else {
                    old(self).outcomes_view()[i]
                },
    {
        let mut i: usize = 0;
        let ghost old_outcomes = self.outcomes@;
        while i < self.students.len()
            invariant
                self.students@.len() == self.outcomes@.len(),
                self.students@ == old(self).students@,
                old_outcomes == old(self).outcomes@,
                i <= self.students@.len(),
                forall|j: int|
                    0 <= j < self.outcomes@.len() ==> #[trigger] self.outcomes@[j] == if j < i
                        && self.students@[j]@ == student@ {
                        Some(outcome)
                    } else {
                        old_outcomes[j]
                    },
            decreases self.students@.len() - i,
        {
            if str_eq(self.students[i].as_str(), student) {
                self.outcomes.set(i, Some(outcome));
            }
            i = i + 1;
        }
    }

    /// Whether every task has ended.
    pub fn all_finished(&self) -> (r: bool)
        requires
            self.wf(),
        ensures
            r == forall|i: int|
                0 <= i < self.outcomes_view().len() ==> (#[trigger] self.outcomes_view()[i]) is Some,
    {
        let mut i: usize = 0;
        while i < self.outcomes.len()
            invariant
                i <= self.outcomes@.len(),
                forall|j: int| 0 <= j < i ==> (#[trigger] self.outcomes@[j]) is Some,
            decreases self.outcomes@.len() - i,
        {
            if self.outcomes[i].is_none() {
                return false;
            }
            i = i + 1;
        }
        true
    }

    /// Ends the batch of `test`: once every task has an outcome, whatever
    /// it is, the test is recorded as run for the whole batch, at the end of
    /// the tests that ran; before that, nothing changes.
    pub fn finish(&self, config: &mut crate::darwin_config::DarwinConfig, test: &str) -> (r: bool)
        requires
            self.wf(),
        ensures
            r == forall|i: int|
                0 <= i < self.outcomes_view().len() ==> (#[trigger] self.outcomes_view()[i]) is Some,
            !r ==> final(config).tests_run@ == old(config).tests_run@,
            r && !strs(old(config).tests_run@).contains(test@) ==> strs(final(config).tests_run@)
                == strs(old(config).tests_run@).push(test@),
            r && strs(old(config).tests_run@).contains(test@) ==> final(config).tests_run@ == old(
                config,
            ).tests_run@,
            final(config).tests@ == old(config).tests@,
    {
        if self.all_finished() {
            config.mark_run(test);
            true
        } else {
            false
        }
    }

    /// The outcome recorded for task `i`.
    pub fn outcome(&self, i: usize) -> (r: Option<TaskOutcome>)
        requires
            self.wf(),
            i < self.students_view().len(),
        ensures
            r == self.outcomes_view()[i as int],
    {
        self.outcomes[i]
    }
}

/// A batch's tasks are independent: recording an outcome for one student
/// changes no other student's slot, whatever the outcome.
pub proof fn lemma_fault_isolation(
    students: Seq<Seq<char>>,
    before: Seq<Option<TaskOutcome>>,
    after: Seq<Option<TaskOutcome>>,
    failed: Seq<char>,
    outcome: TaskOutcome,
    other: int,
)
    requires
        before.len() == students.len(),
        after.len() == students.len(),
        forall|i: int|
            0 <= i < before.len() ==> #[trigger] after[i] == if students[i] == failed {
                Some(outcome)
            } else {
                before[i]
            },
        0 <= other < students.len(),
        students[other] != failed,
    ensures
        after[other] == before[other],
{
}

} // verus!
