use darwin::config::{
    compile_errors_file, darwin_config, darwin_root, diff_dir, diff_exclude_dir, projects_dir,
    results_dir, skel_dir, student_diff_file, student_project_file, student_result_file,
};
use darwin::darwin_config::{compile_error_line, is_student, list_tests, CompileErrorLog, DarwinConfig};
use darwin::project::ProjectType;
use darwin::scheduler::{advance, begin, Action, BatchError, BatchRun, TaskChecks, TaskOutcome, TaskState};

/// What a test runner sees on disk for one student and test.
#[derive(Clone, Copy, Debug, PartialEq)]
struct Disk {
    staging: bool,
    result: bool,
    logged: bool,
}

/// Runs one task on `disk`; `compiles` says whether the project compiles.
/// Returns the outcome and every action asked for.
fn run_task(disk: &mut Disk, compiles: bool) -> (TaskOutcome, Vec<Action>) {
    let checks = TaskChecks {
        initialized: true,
        test_known: true,
        student_known: true,
        staging_exists: disk.staging,
        result_exists: disk.result,
    };
    let (mut state, mut action) = begin(checks);
    let mut actions = Vec::new();
    loop {
        actions.push(action);
        let ok = match action {
            Action::Report { outcome } => return (outcome, actions),
            Action::RemoveStaging => {
                disk.staging = false;
                true
            }
            Action::Reconstruct => {
                disk.staging = true;
                true
            }
            Action::Compile => compiles,
            Action::AppendCompileError => {
                disk.logged = true;
                true
            }
            Action::RunTest => true,
            Action::RelocateReport => {
                disk.result = true;
                true
            }
        };
        let next = advance(state, ok);
        state = next.0;
        action = next.1;
    }
}

fn strings(v: &[&str]) -> Vec<String> {
    v.iter().map(|s| s.to_string()).collect()
}

#[test]
fn a_second_run_only_reads_the_cache() {
    let mut disk = Disk { staging: false, result: false, logged: false };
    let (first, actions) = run_task(&mut disk, true);
    assert_eq!(first, TaskOutcome::Completed);
    assert!(actions.contains(&Action::Reconstruct));
    assert!(disk.result && !disk.staging);
    let (second, actions) = run_task(&mut disk, true);
    assert_eq!(second, TaskOutcome::Cached);
    assert_eq!(actions, vec![Action::Report { outcome: TaskOutcome::Cached }]);
}

#[test]
fn a_stored_result_is_not_rebuilt_nor_logged() {
    let mut disk = Disk { staging: true, result: true, logged: false };
    let (outcome, actions) = run_task(&mut disk, false);
    assert_eq!(outcome, TaskOutcome::Cached);
    assert_eq!(
        actions,
        vec![Action::RemoveStaging, Action::Report { outcome: TaskOutcome::Cached }]
    );
    assert!(!disk.logged && !disk.staging);
}

#[test]
fn a_compile_failure_is_logged_and_cleaned_up() {
    let mut disk = Disk { staging: false, result: false, logged: false };
    let (outcome, actions) = run_task(&mut disk, false);
    assert_eq!(outcome, TaskOutcome::CompileFailed);
    assert_eq!(
        actions,
        vec![
            Action::Reconstruct,
            Action::Compile,
            Action::AppendCompileError,
            Action::RemoveStaging,
            Action::Report { outcome: TaskOutcome::CompileFailed },
        ]
    );
    assert!(disk.logged && !disk.staging && !disk.result);
}

#[test]
fn invalid_tasks_end_at_once() {
    let mut checks = TaskChecks {
        initialized: false,
        test_known: true,
        student_known: true,
        staging_exists: false,
        result_exists: false,
    };
    assert_eq!(
        begin(checks),
        (
            TaskState::Finished { outcome: TaskOutcome::NotInitialized },
            Action::Report { outcome: TaskOutcome::NotInitialized }
        )
    );
    checks.initialized = true;
    checks.test_known = false;
    assert_eq!(begin(checks).1, Action::Report { outcome: TaskOutcome::UnknownTest });
    checks.test_known = true;
    checks.student_known = false;
    assert_eq!(begin(checks).1, Action::Report { outcome: TaskOutcome::UnknownStudent });
}

#[test]
fn failures_after_the_rebuild_still_clean_up() {
    assert_eq!(
        advance(TaskState::Reconstructing, false),
        (TaskState::CleaningUp { outcome: TaskOutcome::ReconstructFailed }, Action::RemoveStaging)
    );
    assert_eq!(
        advance(TaskState::Running, false),
        (TaskState::CleaningUp { outcome: TaskOutcome::RunFailed }, Action::RemoveStaging)
    );
    assert_eq!(
        advance(TaskState::Relocating, false),
        (TaskState::CleaningUp { outcome: TaskOutcome::RelocateFailed }, Action::RemoveStaging)
    );
    assert_eq!(
        advance(TaskState::CleaningUp { outcome: TaskOutcome::Completed }, false).1,
        Action::Report { outcome: TaskOutcome::CleanupFailed }
    );
    assert_eq!(
        advance(TaskState::RemovingStale { cached: false }, true),
        (TaskState::Reconstructing, Action::Reconstruct)
    );
}

#[test]
fn fifty_students_all_end_with_a_result_or_a_logged_failure() {
    let students: Vec<String> = (0..50).map(|i| format!("s{}", i)).collect();
    let mut batch = BatchRun::start(students.clone(), true, false).unwrap();
    let mut disks: Vec<Disk> = vec![Disk { staging: false, result: false, logged: false }; 50];
    for i in 0..50 {
        let compiles = i % 7 != 3;
        let (outcome, _) = run_task(&mut disks[i], compiles);
        batch.record(&students[i], outcome);
    }
    assert!(batch.all_finished());
    for i in 0..50 {
        let d = disks[i];
        assert!(d.result || d.logged);
        assert!(!d.staging);
        let expected = if i % 7 != 3 { TaskOutcome::Completed } else { TaskOutcome::CompileFailed };
        assert_eq!(batch.outcome(i), Some(expected));
    }
}

#[test]
fn one_failure_leaves_the_other_tasks_alone() {
    let mut batch = BatchRun::start(strings(&["alice", "bob"]), true, false).unwrap();
    batch.record("alice", TaskOutcome::CompileFailed);
    assert_eq!(batch.outcome(0), Some(TaskOutcome::CompileFailed));
    assert_eq!(batch.outcome(1), None);
    assert!(!batch.all_finished());
    batch.record("bob", TaskOutcome::Completed);
    assert_eq!(batch.outcome(1), Some(TaskOutcome::Completed));
    assert!(batch.all_finished());
    assert_eq!(batch.len(), 2);
    assert_eq!(batch.student(1), "bob");
}

#[test]
fn a_batch_needs_a_known_test_that_has_not_run() {
    assert!(matches!(BatchRun::start(Vec::new(), false, false), Err(BatchError::UnknownTest)));
    assert!(matches!(BatchRun::start(Vec::new(), true, true), Err(BatchError::AlreadyRun)));
}

#[test]
fn the_store_layout() {
    assert_eq!(darwin_root(), ".darwin");
    assert_eq!(darwin_config(), ".darwin/darwin.json");
    assert_eq!(diff_dir(), ".darwin/submission_diffs");
    assert_eq!(student_diff_file("alice"), ".darwin/submission_diffs/alice");
    assert_eq!(projects_dir(), ".darwin/projects");
    assert_eq!(student_project_file("alice"), ".darwin/projects/alice");
    assert_eq!(results_dir(), ".darwin/results");
    assert_eq!(student_result_file("alice", "testX"), ".darwin/results/alice_testX");
    assert_eq!(compile_errors_file(), ".darwin/results/compile_errors");
    assert_eq!(skel_dir(), ".darwin/skel");
    assert_eq!(diff_exclude_dir(), ".darwin/diff_exclude");
}

#[test]
fn a_batch_marker_is_set_once() {
    let mut config = DarwinConfig::new(ProjectType::MavenSurefire, strings(&["T1", "T2"]), Vec::new());
    assert_eq!(config.version, "1.0.0");
    assert!(config.is_test("T1"));
    assert!(!config.is_test("T3"));
    assert!(!config.was_run("T1"));
    config.mark_run("T1");
    config.mark_run("T1");
    assert!(config.was_run("T1"));
    assert_eq!(config.tests_run, strings(&["T1"]));
    assert_eq!(list_tests(&config), strings(&["T1", "T2"]));
    config.clear_runs();
    assert!(!config.was_run("T1"));
}

#[test]
fn the_compile_error_log_is_a_set_of_students() {
    let mut log = CompileErrorLog::parse("alice\n\nbob\n");
    assert!(log.contains("alice"));
    assert!(log.contains("bob"));
    assert!(!log.contains("ali"));
    log.record("carol");
    log.record("alice");
    assert!(log.contains("carol"));
    assert_eq!(compile_error_line("carol"), "carol\n");
    assert!(is_student(&strings(&["alice", "bob"]), "bob"));
    assert!(!is_student(&strings(&["alice", "bob"]), "bo"));
}

#[test]
fn a_compile_failure_that_cannot_be_logged_is_told_apart() {
    assert_eq!(
        advance(TaskState::RecordingCompileError, false),
        (TaskState::CleaningUp { outcome: TaskOutcome::LogFailed }, Action::RemoveStaging)
    );
    assert_eq!(
        advance(TaskState::RecordingCompileError, true),
        (TaskState::CleaningUp { outcome: TaskOutcome::CompileFailed }, Action::RemoveStaging)
    );
}

#[test]
fn the_marker_is_set_once_every_task_has_ended() {
    let mut config = DarwinConfig::new(ProjectType::MavenSurefire, strings(&["T0", "T1"]), Vec::new());
    config.mark_run("T0");
    let mut batch = BatchRun::start(strings(&["alice", "bob"]), true, config.was_run("T1")).unwrap();
    batch.record("alice", TaskOutcome::CompileFailed);
    assert!(!batch.finish(&mut config, "T1"));
    assert_eq!(config.tests_run, strings(&["T0"]));
    batch.record("bob", TaskOutcome::Completed);
    assert!(batch.finish(&mut config, "T1"));
    assert_eq!(config.tests_run, strings(&["T0", "T1"]));
}
