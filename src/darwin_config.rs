//! The project's configuration: its ecosystem, its tests, which tests have
//! run for the whole batch, and the submissions that could not be read; and
//! the log of the students whose projects did not compile.
use vstd::prelude::*;

use crate::paths::{contains_str, lemma_strs_push, pieces, split_on, strs};
use crate::project::ProjectType;

verus! {

/// A fresh copy of the strings of `v`.
pub fn copy_strings(v: &[String]) -> (r: Vec<String>)
    ensures
        r@ == v@,
{
    let mut out: Vec<String> = Vec::new();
    let mut i: usize = 0;
    while i < v.len()
        invariant
            i <= v@.len(),
            out@ == v@.take(i as int),
        decreases v@.len() - i,
    {
        out.push(v[i].clone());
        assert(out@ =~= v@.take(i + 1));
        i = i + 1;
    }
    assert(v@.take(v@.len() as int) =~= v@);
    out
}

/// The configuration of a project, read once per invocation.
pub struct DarwinConfig {
    pub version: String,
    pub project_type: ProjectType,
    /// Every test of the project.
    pub tests: Vec<String>,
    /// The tests that ran for the whole batch.
    pub tests_run: Vec<String>,
    /// Each student whose submission could not be read, with the reason.
    pub extraction_errors: Vec<(String, String)>,
}

impl DarwinConfig {
    /// The configuration of a new project: no test has run yet.
    pub fn new(
        project_type: ProjectType,
        tests: Vec<String>,
        extraction_errors: Vec<(String, String)>,
    ) -> (r: DarwinConfig)
        ensures
            r.version@ == "1.0.0"@,
            r.project_type == project_type,
            r.tests@ == tests@,
            r.tests_run@.len() == 0,
            r.extraction_errors@ == extraction_errors@,
    {
        DarwinConfig {
            version: "1.0.0".to_owned(),
            project_type,
            tests,
            tests_run: Vec::new(),
            extraction_errors,
        }
    }

    /// Whether `test` is one of the project's tests.
    pub fn is_test(&self, test: &str) -> (r: bool)
        ensures
            r == strs(self.tests@).contains(test@),
    {
        contains_str(self.tests.as_slice(), test)
    }

    /// Whether `test` already ran for the whole batch.
    pub fn was_run(&self, test: &str) -> (r: bool)
        ensures
            r == strs(self.tests_run@).contains(test@),
    {
        contains_str(self.tests_run.as_slice(), test)
    }

    /// Records that `test` ran for the whole batch; a test is recorded once.
    pub fn mark_run(&mut self, test: &str)
        ensures
            strs(final(self).tests_run@).to_set() == strs(old(self).tests_run@).to_set().insert(
                test@,
            ),
            !strs(old(self).tests_run@).contains(test@) ==> strs(final(self).tests_run@) == strs(
                old(self).tests_run@,
            ).push(test@),
            strs(old(self).tests_run@).contains(test@) ==> final(self).tests_run@ == old(
                self,
            ).tests_run@,
            strs(old(self).tests_run@).no_duplicates() ==> strs(
                final(self).tests_run@,
            ).no_duplicates(),
            final(self).tests@ == old(self).tests@,
            final(self).project_type == old(self).project_type,
    {
        if !contains_str(self.tests_run.as_slice(), test) {
            let ghost before = self.tests_run@;
            let t = test.to_owned();
            self.tests_run.push(t);
            proof {
                lemma_strs_push(before, t);
                assert(strs(self.tests_run@).to_set() =~= strs(before).to_set().insert(test@)) by {
                    strs(before).lemma_push_to_set_commute(test@);
                }
            }
        } else {
            assert(strs(self.tests_run@).to_set() =~= strs(self.tests_run@).to_set().insert(
                test@,
            ));
        }
    }

    /// Forgets which tests ran.
    pub fn clear_runs(&mut self)
        ensures
            final(self).tests_run@.len() == 0,
            final(self).tests@ == old(self).tests@,
            final(self).project_type == old(self).project_type,
    {
        self.tests_run = Vec::new();
    }
}

/// The tests of a project.
pub fn list_tests(config: &DarwinConfig) -> (r: Vec<String>)
    ensures
        r@ == config.tests@,
{
    copy_strings(config.tests.as_slice())
}

/// Whether `student` is among `students`.
pub fn is_student(students: &[String], student: &str) -> (r: bool)
    ensures
        r == strs(students@).contains(student@),
{
    contains_str(students, student)
}

/// The students whose projects did not compile, each once.
pub struct CompileErrorLog {
    students: Vec<String>,
}

impl CompileErrorLog {
    /// The students of the log.
    pub closed spec fn view_set(&self) -> Set<Seq<char>> {
        strs(self.students@).to_set()
    }

    /// The log held in `text`: one student per line; empty lines mean
    /// nothing.
    pub fn parse(text: &str) -> (r: CompileErrorLog)
        ensures
            r.view_set() == pieces(text@, '\n').to_set(),
    {
        CompileErrorLog { students: split_on(text, '\n') }
    }

    /// Whether the log names `student`.
    pub fn contains(&self, student: &str) -> (r: bool)
        ensures
            r == self.view_set().contains(student@),
    {
        let r = contains_str(self.students.as_slice(), student);
        proof {
            if strs(self.students@).to_set().contains(student@) {
                assert(strs(self.students@).contains(student@));
            }
        }
        r
    }

    /// Adds `student` to the log; a student already there is not added
    /// again.
    pub fn record(&mut self, student: &str)
        ensures
            final(self).view_set() == old(self).view_set().insert(student@),
    {
        let ghost before = self.students@;
        if !contains_str(self.students.as_slice(), student) {
            let s = student.to_owned();
            self.students.push(s);
            proof {
                lemma_strs_push(before, s);
                strs(before).lemma_push_to_set_commute(student@);
            }
        } else {
            assert(strs(before).to_set().insert(student@) =~= strs(before).to_set());
        }
    }
}

/// The line that records `student` in the log.
pub fn compile_error_line(student: &str) -> (r: String)
    ensures
        r@ == student@ + seq!['\n'],
{
    let mut out = student.to_owned();
    out.append("\n");
    proof {
        reveal_strlit("\n");
    }
    out
}

} // verus!
