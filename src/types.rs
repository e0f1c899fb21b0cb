//! Test results and their summaries.
use vstd::prelude::*;

use crate::paths::str_eq;
use crate::text::{bool_text, concat, decimal, decimal_text, lemma_concat_push};

verus! {

/// How one test case ended.
#[derive(Debug, PartialEq, Eq)]
pub enum StatusMsg {
    /// The test passed.
    Passed,
    /// An assertion of the test failed.
    Failure { message: Option<String>, type_: String, full_message: Option<String> },
    /// The test ended on an unexpected error.
    Error { message: Option<String>, type_: String, full_message: Option<String> },
}

/// One test case of a report.
#[derive(Debug)]
pub struct TestResult {
    pub name: String,
    pub classname: String,
    /// How long the test case took, in seconds, as the report gives it.
    pub time: String,
    pub msg: StatusMsg,
}

/// What is known of a student's run of a test.
#[derive(Debug)]
pub enum TestState {
    /// The student's project did not compile.
    CompilationError,
    /// The test ran; these are its cases.
    Ran { results: Vec<TestResult> },
}

/// Why no result can be given for a student and test.
#[derive(Debug)]
pub enum TestResultError {
    /// The result could not be read or parsed.
    IOError(String),
    /// The test has not been run for the student.
    TestsNotRun,
}

/// The results of one student for one test.
#[derive(Debug)]
pub struct TestResults {
    pub student: String,
    pub test: String,
    pub state: TestState,
}

/// The number of results that passed.
pub open spec fn count_passed(rs: Seq<TestResult>) -> nat {
    rs.filter(|r: TestResult| r.msg is Passed).len()
}

/// The number of results that ended on an error.
pub open spec fn count_errored(rs: Seq<TestResult>) -> nat {
    rs.filter(|r: TestResult| r.msg is Error).len()
}

/// The number of results that failed.
pub open spec fn count_failed(rs: Seq<TestResult>) -> nat {
    rs.filter(|r: TestResult| r.msg is Failure).len()
}

/// The summary of a state: whether the project failed to compile, then the
/// numbers of results that passed, ended on an error, and failed.
pub open spec fn summary_of(s: TestState) -> (bool, int, int, int) {
    match s {
        TestState::CompilationError => (true, 0, 0, 0),
        TestState::Ran { results } => (
            false,
            count_passed(results@) as int,
            count_errored(results@) as int,
            count_failed(results@) as int,
        ),
    }
}

/// The one-line summary of the results of `student` for `test`.
pub open spec fn summary_line(student: Seq<char>, test: Seq<char>, s: (bool, int, int, int)) -> Seq<
    char,
> {
    student + "_"@ + test + ": Compilation Error: "@ + (if s.0 {
        "true"@
    } else {
        "false"@
    }) + ", Correct: "@ + decimal(s.1 as nat) + ", Errored: "@ + decimal(s.2 as nat)
        + ", Failed: "@ + decimal(s.3 as nat)
}

/// The results of `rs` whose class is `c`, in order.
pub open spec fn members(rs: Seq<TestResult>, c: Seq<char>) -> Seq<int> {
    Seq::new(rs.len(), |i: int| i).filter(|i: int| rs[i].classname@ == c)
}

/// The counts of passed, errored and failed results of the class `c`.
pub open spec fn class_counts(rs: Seq<TestResult>, c: Seq<char>) -> (nat, nat, nat) {
    (
        rs.filter(|r: TestResult| r.classname@ == c && r.msg is Passed).len(),
        rs.filter(|r: TestResult| r.classname@ == c && r.msg is Error).len(),
        rs.filter(|r: TestResult| r.classname@ == c && r.msg is Failure).len(),
    )
}

/// The classes of `rs`, each once, in order of first appearance.
pub open spec fn classes_in_order(rs: Seq<TestResult>) -> Seq<Seq<char>>
    decreases rs.len(),
{
    if rs.len() == 0 {
        seq![]
    } else {
        let prev = classes_in_order(rs.drop_last());
        if prev.contains(rs.last().classname@) {
            prev
        } else {
            prev.push(rs.last().classname@)
        }
    }
}

proof fn lemma_filter_step<A>(s: Seq<A>, k: int, p: spec_fn(A) -> bool)
    requires
        0 <= k < s.len(),
    ensures
        s.take(k + 1).filter(p) == if p(s[k]) {
            s.take(k).filter(p).push(s[k])
        } else {
            s.take(k).filter(p)
        },
{
    s.take(k).lemma_filter_push(s[k], p);
    assert(s.take(k + 1) =~= s.take(k).push(s[k]));
}

/// The number of results in `rs` that meet `p`.
fn count_where(rs: &Vec<TestResult>, which: u8) -> (r: usize)
    requires
        which < 3,
    ensures
        which == 0 ==> r == count_passed(rs@),
        which == 1 ==> r == count_errored(rs@),
        which == 2 ==> r == count_failed(rs@),
{
    let ghost p = if which == 0 {
        |r: TestResult| r.msg is Passed
    } else if which == 1 {
        |r: TestResult| r.msg is Error
    } else {
        |r: TestResult| r.msg is Failure
    };
    let mut n: usize = 0;
    let mut i: usize = 0;
    while i < rs.len()
        invariant
            i <= rs@.len(),
            which < 3,
            p == (if which == 0 {
                |r: TestResult| r.msg is Passed
            } else if which == 1 {
                |r: TestResult| r.msg is Error
            } else {
                |r: TestResult| r.msg is Failure
            }),
            n == rs@.take(i as int).filter(p).len(),
            n <= i,
        decreases rs@.len() - i,
    {
        proof {
            lemma_filter_step(rs@, i as int, p);
        }
        let hit = match &rs[i].msg {
            StatusMsg::Passed => which == 0,
            StatusMsg::Error { .. } => which == 1,
            StatusMsg::Failure { .. } => which == 2,
        };
        if hit {
            n = n + 1;
        }
        i = i + 1;
    }
    assert(rs@.take(rs@.len() as int) =~= rs@);
    n
}

impl TestResults {
    /// Whether the project failed to compile, then the numbers of results
    /// that passed, ended on an error, and failed.
    pub fn summary(&self) -> (r: (bool, usize, usize, usize))
        ensures
            (r.0, r.1 as int, r.2 as int, r.3 as int) == summary_of(self.state),
    {
        match &self.state {
            TestState::CompilationError => (true, 0, 0, 0),
            TestState::Ran { results } => {
                let num_correct = count_where(results, 0);
                let num_errored = count_where(results, 1);
                let num_failed = count_where(results, 2);
                (false, num_correct, num_errored, num_failed)
            },
        }
    }

    /// The summary as one line: `student_test: Compilation Error: false,
    /// Correct: 3, Errored: 0, Failed: 1`.
    pub fn summarize(&self) -> (r: String)
        ensures
            r@ == summary_line(self.student@, self.test@, summary_of(self.state)),
    {
        let summary = self.summary();
        let mut out = self.student.clone();
        out.append("_");
        out.append(self.test.as_str());
        out.append(": Compilation Error: ");
        out.append(bool_text(summary.0));
        out.append(", Correct: ");
        out.append(decimal_text(summary.1).as_str());
        out.append(", Errored: ");
        out.append(decimal_text(summary.2).as_str());
        out.append(", Failed: ");
        out.append(decimal_text(summary.3).as_str());
        out
    }

    /// The indices of the results, grouped by class in order of first
    /// appearance; none for a project that did not compile.
    pub fn group_by_classname(&self) -> (r: Option<Vec<(String, Vec<usize>)>>)
        ensures
            match self.state {
                TestState::CompilationError => r is None,
                TestState::Ran { results } => r matches Some(g) && g@.len() == classes_in_order(
                    results@,
                ).len() && forall|i: int|
                    0 <= i < g@.len() ==> (#[trigger] g@[i]).0@ == classes_in_order(results@)[i]
                        && g@[i].1@.map_values(|k: usize| k as int) == members(
                        results@,
                        classes_in_order(results@)[i],
                    ),
            },
    {
        match &self.state {
            TestState::CompilationError => None,
            TestState::Ran { results } => Some(group_indices(results)),
        }
    }

    /// The numbers of passed, errored and failed results of each class, in
    /// order of first appearance; none for a project that did not compile.
    pub fn summarize_by_classname(&self) -> (r: Option<Vec<(String, (usize, usize, usize))>>)
        ensures
            match self.state {
                TestState::CompilationError => r is None,
                TestState::Ran { results } => r matches Some(g) && g@.len() == classes_in_order(
                    results@,
                ).len() && forall|i: int|
                    0 <= i < g@.len() ==> (#[trigger] g@[i]).0@ == classes_in_order(results@)[i]
                        && (g@[i].1.0 as nat, g@[i].1.1 as nat, g@[i].1.2 as nat) == class_counts(
                        results@,
                        classes_in_order(results@)[i],
                    ),
            },
    {
        match &self.state {
            TestState::CompilationError => None,
            TestState::Ran { results } => Some(count_by_class(results)),
        }
    }
}

/// The classes of `results`, each once, in order of first appearance.
fn classes_of(results: &Vec<TestResult>) -> (r: Vec<String>)
    ensures
        crate::paths::strs(r@) == classes_in_order(results@),
{
    let ghost rs = results@;
    let mut out: Vec<String> = Vec::new();
    let mut k: usize = 0;
    while k < results.len()
        invariant
            rs == results@,
            k <= rs.len(),
            crate::paths::strs(out@) == classes_in_order(rs.take(k as int)),
        decreases rs.len() - k,
    {
        assert(rs.take(k + 1).drop_last() =~= rs.take(k as int));
        assert(rs.take(k + 1).last() == rs[k as int]);
        let c = &results[k].classname;
        if !crate::paths::contains_str(out.as_slice(), c.as_str()) {
            let ghost before = out@;
            out.push(c.clone());
            proof {
                crate::paths::lemma_strs_push(before, *c);
            }
        }
        k = k + 1;
    }
    assert(rs.take(rs.len() as int) =~= rs);
    out
}

/// The indices of the results of class `c`, in order.
fn members_of(results: &Vec<TestResult>, c: &str) -> (r: Vec<usize>)
    ensures
        r@.map_values(|k: usize| k as int) == members(results@, c@),
{
    let ghost rs = results@;
    let ghost idx = Seq::new(rs.len(), |i: int| i);
    let ghost p = |x: int| rs[x].classname@ == c@;
    let mut out: Vec<usize> = Vec::new();
    let mut k: usize = 0;
    while k < results.len()
        invariant
            rs == results@,
            idx == Seq::new(rs.len(), |i: int| i),
            p == (|x: int| rs[x].classname@ == c@),
            k <= rs.len(),
            out@.map_values(|x: usize| x as int) == idx.take(k as int).filter(p),
        decreases rs.len() - k,
    {
        proof {
            lemma_filter_step(idx, k as int, p);
        }
        if str_eq(results[k].classname.as_str(), c) {
            let ghost before = out@;
            out.push(k);
            assert(out@.map_values(|x: usize| x as int) =~= before.map_values(|x: usize| x as int).push(
                k as int,
            ));
        }
        k = k + 1;
    }
    assert(idx.take(rs.len() as int) =~= idx);
    out
}

/// The indices of `results`, grouped by class in order of first appearance.
fn group_indices(results: &Vec<TestResult>) -> (g: Vec<(String, Vec<usize>)>)
    ensures
        g@.len() == classes_in_order(results@).len(),
        forall|i: int|
            0 <= i < g@.len() ==> (#[trigger] g@[i]).0@ == classes_in_order(results@)[i]
                && g@[i].1@.map_values(|k: usize| k as int) == members(
                results@,
                classes_in_order(results@)[i],
            ),
{
    let classes = classes_of(results);
    let mut g: Vec<(String, Vec<usize>)> = Vec::new();
    let mut i: usize = 0;
    while i < classes.len()
        invariant
            crate::paths::strs(classes@) == classes_in_order(results@),
            i <= classes@.len(),
            g@.len() == i,
            forall|j: int|
                0 <= j < i ==> (#[trigger] g@[j]).0@ == classes_in_order(results@)[j]
                    && g@[j].1@.map_values(|k: usize| k as int) == members(
                    results@,
                    classes_in_order(results@)[j],
                ),
        decreases classes@.len() - i,
    {
        assert(crate::paths::strs(classes@)[i as int] == classes@[i as int]@);
        let m = members_of(results, classes[i].as_str());
        g.push((classes[i].clone(), m));
        i = i + 1;
    }
    g
}

/// The numbers of passed, errored and failed results of class `c`.
fn counts_of(results: &Vec<TestResult>, c: &str) -> (r: (usize, usize, usize))
    ensures
        (r.0 as nat, r.1 as nat, r.2 as nat) == class_counts(results@, c@),
{
    let ghost rs = results@;
    let ghost p0 = |r: TestResult| r.classname@ == c@ && r.msg is Passed;
    let ghost p1 = |r: TestResult| r.classname@ == c@ && r.msg is Error;
    let ghost p2 = |r: TestResult| r.classname@ == c@ && r.msg is Failure;
    let mut n0: usize = 0;
    let mut n1: usize = 0;
    let mut n2: usize = 0;
    let mut k: usize = 0;
    while k < results.len()
        invariant
            rs == results@,
            k <= rs.len(),
            p0 == (|r: TestResult| r.classname@ == c@ && r.msg is Passed),
            p1 == (|r: TestResult| r.classname@ == c@ && r.msg is Error),
            p2 == (|r: TestResult| r.classname@ == c@ && r.msg is Failure),
            n0 == rs.take(k as int).filter(p0).len(),
            n1 == rs.take(k as int).filter(p1).len(),
            n2 == rs.take(k as int).filter(p2).len(),
            n0 + n1 + n2 <= k,
        decreases rs.len() - k,
    {
        proof {
            lemma_filter_step(rs, k as int, p0);
            lemma_filter_step(rs, k as int, p1);
            lemma_filter_step(rs, k as int, p2);
        }
        if str_eq(results[k].classname.as_str(), c) {
            match &results[k].msg {
                StatusMsg::Passed => {
                    n0 = n0 + 1;
                },
                StatusMsg::Error { .. } => {
                    n1 = n1 + 1;
                },
                StatusMsg::Failure { .. } => {
                    n2 = n2 + 1;
                },
            }
        }
        k = k + 1;
    }
    assert(rs.take(rs.len() as int) =~= rs);
    (n0, n1, n2)
}

/// The counts of each class, in order of first appearance.
fn count_by_class(results: &Vec<TestResult>) -> (g: Vec<(String, (usize, usize, usize))>)
    ensures
        g@.len() == classes_in_order(results@).len(),
        forall|i: int|
            0 <= i < g@.len() ==> (#[trigger] g@[i]).0@ == classes_in_order(results@)[i] && (
            g@[i].1.0 as nat,
            g@[i].1.1 as nat,
            g@[i].1.2 as nat,
            ) == class_counts(results@, classes_in_order(results@)[i]),
{
    let classes = classes_of(results);
    let mut g: Vec<(String, (usize, usize, usize))> = Vec::new();
    let mut i: usize = 0;
    while i < classes.len()
        invariant
            crate::paths::strs(classes@) == classes_in_order(results@),
            i <= classes@.len(),
            g@.len() == i,
            forall|j: int|
                0 <= j < i ==> (#[trigger] g@[j]).0@ == classes_in_order(results@)[j] && (
                g@[j].1.0 as nat,
                g@[j].1.1 as nat,
                g@[j].1.2 as nat,
                ) == class_counts(results@, classes_in_order(results@)[j]),
        decreases classes@.len() - i,
    {
        assert(crate::paths::strs(classes@)[i as int] == classes@[i as int]@);
        let counts = counts_of(results, classes[i].as_str());
        g.push((classes[i].clone(), counts));
        i = i + 1;
    }
    g
}

/// How results are shown.
#[derive(Clone, Copy, Debug, PartialEq, Eq, Structural)]
pub enum ViewMode {
    /// One summary line.
    Summarize,
    /// The counts of each class.
    ClassName,
    /// Every test case.
    Everything,
}

/// The counts of the class `c` as text: `c: 2 passed, 1 errored, 0 failed`.
pub open spec fn class_text(rs: Seq<TestResult>, c: Seq<char>) -> Seq<char> {
    let n = class_counts(rs, c);
    c + ": "@ + decimal(n.0) + " passed, "@ + decimal(n.1) + " errored, "@ + decimal(n.2)
        + " failed; "@
}

/// The word for how a test case ended.
pub open spec fn status_word(m: StatusMsg) -> Seq<char> {
    match m {
        StatusMsg::Passed => "passed"@,
        StatusMsg::Failure { .. } => "failed"@,
        StatusMsg::Error { .. } => "errored"@,
    }
}

/// A test case as one line: `name (class): passed`.
pub open spec fn case_text(r: TestResult) -> Seq<char> {
    r.name@ + " ("@ + r.classname@ + "): "@ + status_word(r.msg) + "\n"@
}

/// The counts of each class of `t`, after `student_test `.
pub open spec fn print_text(t: &TestResults) -> Seq<char> {
    t.student@ + "_"@ + t.test@ + " "@ + match t.state {
        TestState::CompilationError => "compilation error"@,
        TestState::Ran { results } => concat(
            classes_in_order(results@).map_values(|c: Seq<char>| class_text(results@, c)),
        ),
    }
}

/// Every test case of `t`, one per line.
pub open spec fn everything_text(t: &TestResults) -> Seq<char> {
    match t.state {
        TestState::CompilationError => "compilation error\n"@,
        TestState::Ran { results } => concat(results@.map_values(|r: TestResult| case_text(r))),
    }
}

/// The word for how a test case ended.
fn status_text(m: &StatusMsg) -> (r: &'static str)
    ensures
        r@ == status_word(*m),
{
    match m {
        StatusMsg::Passed => "passed",
        StatusMsg::Failure { .. } => "failed",
        StatusMsg::Error { .. } => "errored",
    }
}

impl TestResults {
    /// The counts of each class, after `student_test `; a project that did
    /// not compile says so.
    pub fn print(&self) -> (r: String)
        ensures
            r@ == print_text(self),
    {
        let mut out = self.student.clone();
        out.append("_");
        out.append(self.test.as_str());
        out.append(" ");
        match &self.state {
            TestState::CompilationError => {
                out.append("compilation error");
            },
            TestState::Ran { results } => {
                let ghost head = out@;
                let counts = count_by_class(results);
                let ghost cs = classes_in_order(results@);
                let ghost f = |c: Seq<char>| class_text(results@, c);
                let mut i: usize = 0;
                while i < counts.len()
                    invariant
                        counts@.len() == cs.len(),
                        cs == classes_in_order(results@),
                        f == (|c: Seq<char>| class_text(results@, c)),
                        forall|j: int|
                            0 <= j < counts@.len() ==> (#[trigger] counts@[j]).0@ == cs[j] && (
                            counts@[j].1.0 as nat,
                            counts@[j].1.1 as nat,
                            counts@[j].1.2 as nat,
                            ) == class_counts(results@, cs[j]),
                        i <= counts@.len(),
                        out@ == head + concat(cs.take(i as int).map_values(f)),
                    decreases counts@.len() - i,
                {
                    let ghost prev = out@;
                    out.append(counts[i].0.as_str());
                    out.append(": ");
                    out.append(decimal_text(counts[i].1.0).as_str());
                    out.append(" passed, ");
                    out.append(decimal_text(counts[i].1.1).as_str());
                    out.append(" errored, ");
                    out.append(decimal_text(counts[i].1.2).as_str());
                    out.append(" failed; ");
                    proof {
                        assert(cs.take(i + 1).map_values(f) =~= cs.take(i as int).map_values(f).push(
                            f(cs[i as int]),
                        ));
                        lemma_concat_push(cs.take(i as int).map_values(f), f(cs[i as int]));
                        assert(out@ =~= prev + f(cs[i as int]));
                    }
                    i = i + 1;
                }
                assert(cs.take(cs.len() as int) =~= cs);
            },
        }
        out
    }

    /// Every test case, one per line; a project that did not compile says
    /// so.
    pub fn everything(&self) -> (r: String)
        ensures
            r@ == everything_text(self),
    {
        match &self.state {
            TestState::CompilationError => "compilation error\n".to_owned(),
            TestState::Ran { results } => {
                let ghost f = |t: TestResult| case_text(t);
                let mut out = String::new();
                let mut i: usize = 0;
                while i < results.len()
                    invariant
                        f == (|t: TestResult| case_text(t)),
                        i <= results@.len(),
                        out@ == concat(results@.take(i as int).map_values(f)),
                    decreases results@.len() - i,
                {
                    let ghost prev = out@;
                    let r = &results[i];
                    out.append(r.name.as_str());
                    out.append(" (");
                    out.append(r.classname.as_str());
                    out.append("): ");
                    out.append(status_text(&r.msg));
                    out.append("\n");
                    proof {
                        assert(results@.take(i + 1).map_values(f) =~= results@.take(
                            i as int,
                        ).map_values(f).push(f(results@[i as int])));
                        lemma_concat_push(results@.take(i as int).map_values(f), f(results@[i as int]));
                        assert(out@ =~= prev + f(results@[i as int]));
                    }
                    i = i + 1;
                }
                assert(results@.take(results@.len() as int) =~= results@);
                out
            },
        }
    }

    /// The results shown as `mode` asks.
    pub fn view(&self, mode: ViewMode) -> (r: String)
        ensures
            mode == ViewMode::Summarize ==> r@ == summary_line(
                self.student@,
                self.test@,
                summary_of(self.state),
            ),
            mode == ViewMode::ClassName ==> r@ == print_text(self),
            mode == ViewMode::Everything ==> r@ == everything_text(self),
    {
        match mode {
            ViewMode::Summarize => self.summarize(),
            ViewMode::ClassName => self.print(),
            ViewMode::Everything => self.everything(),
        }
    }
}

} // verus!
