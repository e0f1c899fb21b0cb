//! Looking up what is known of a student's run of a test, and the checks
//! made before a diff is created.
use vstd::prelude::*;

use crate::darwin_config::{CompileErrorLog, DarwinConfig};
use crate::paths::{contains_str, strs};
use crate::surefire::{parse_result_report, report_fold, results_view, xml_items_of};
use crate::types::{TestResultError, TestResults, TestState};

verus! {

/// What is known of `student`'s run of `test`. An unknown student or test
/// is an error; a student in the compile error log has a compilation error
/// whatever report exists; without a stored report the test has not run;
/// else the report's test cases are read.
pub fn parse_test_results(
    students: &[String],
    config: &DarwinConfig,
    log: &CompileErrorLog,
    student: &str,
    test: &str,
    report: Option<&[u8]>,
) -> (r: Result<TestResults, TestResultError>)
    ensures
        !strs(students@).contains(student@) ==> (r matches Err(e) && e is IOError),
        strs(students@).contains(student@) && !strs(config.tests@).contains(test@) ==> (r matches Err(
            e,
        ) && e is IOError),
        strs(students@).contains(student@) && strs(config.tests@).contains(test@)
            && log.view_set().contains(student@) ==> (r matches Ok(t) && t.student@ == student@
            && t.test@ == test@ && t.state is CompilationError),
        strs(students@).contains(student@) && strs(config.tests@).contains(test@)
            && !log.view_set().contains(student@) && report is None ==> (r matches Err(e)
            && e is TestsNotRun),
        strs(students@).contains(student@) && strs(config.tests@).contains(test@)
            && !log.view_set().contains(student@) && report is Some ==> match xml_items_of(
            report->0@,
        ) {
            Some(items) => match report_fold(items) {
                Some((_, done)) => r matches Ok(t) && t.student@ == student@ && t.test@ == test@
                    && (t.state matches TestState::Ran { results } && results_view(results@) == done),
                None => r matches Err(e) && e is IOError,
            },
            None => r matches Err(e) && e is IOError,
        },
{
    if !contains_str(students, student) {
        return Err(TestResultError::IOError("student not recognized".to_owned()));
    }
    if !config.is_test(test) {
        return Err(TestResultError::IOError("test not recognized".to_owned()));
    }
    if log.contains(student) {
        return Ok(
            TestResults {
                student: student.to_owned(),
                test: test.to_owned(),
                state: TestState::CompilationError,
            },
        );
    }
    match report {
        None => Err(TestResultError::TestsNotRun),
        Some(bytes) => match parse_result_report(bytes) {
            Ok(results) => Ok(
                TestResults {
                    student: student.to_owned(),
                    test: test.to_owned(),
                    state: TestState::Ran { results },
                },
            ),
            Err(e) => Err(e),
        },
    }
}

/// Why a diff cannot be created.
#[derive(Clone, Copy, Debug, PartialEq, Eq, Structural)]
pub enum DiffError {
    /// The tree to diff from does not exist.
    OriginalMissing,
    /// The tree to diff to does not exist.
    DeviantMissing,
}

/// Whether a diff can be created between two trees: both must exist.
pub fn create_diff(original_exists: bool, deviant_exists: bool) -> (r: Result<(), DiffError>)
    ensures
        !original_exists ==> r == Err::<(), DiffError>(DiffError::OriginalMissing),
        original_exists && !deviant_exists ==> r == Err::<(), DiffError>(
            DiffError::DeviantMissing,
        ),
        original_exists && deviant_exists ==> r is Ok,
{
    if !original_exists {
        return Err(DiffError::OriginalMissing);
    }
    if !deviant_exists {
        return Err(DiffError::DeviantMissing);
    }
    Ok(())
}

} // verus!
