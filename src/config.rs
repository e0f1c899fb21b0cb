//! The layout of a project's store on disk, relative to where it runs.
use vstd::prelude::*;

verus! {

/// `a` and `b` joined by one separator.
pub open spec fn joined(a: Seq<char>, b: Seq<char>) -> Seq<char> {
    a + seq!['/'] + b
}

/// The root of a project's store.
pub open spec fn root_path() -> Seq<char> {
    ".darwin"@
}

/// `name` directly under the root.
pub open spec fn under_root(name: Seq<char>) -> Seq<char> {
    joined(root_path(), name)
}

/// `a` and `b` joined by one separator.
pub fn join(a: &str, b: &str) -> (r: String)
    ensures
        r@ == joined(a@, b@),
{
    let mut out = a.to_owned();
    out.append("/");
    out.append(b);
    proof {
        reveal_strlit("/");
    }
    out
}

/// The root of a project's store.
pub fn darwin_root() -> (r: String)
    ensures
        r@ == root_path(),
{
    ".darwin".to_owned()
}

/// The project's configuration file.
pub fn darwin_config() -> (r: String)
    ensures
        r@ == under_root("darwin.json"@),
{
    join(darwin_root().as_str(), "darwin.json")
}

/// The directory of the students' diffs.
pub fn diff_dir() -> (r: String)
    ensures
        r@ == under_root("submission_diffs"@),
{
    join(darwin_root().as_str(), "submission_diffs")
}

/// The diff of `student`.
pub fn student_diff_file(student: &str) -> (r: String)
    ensures
        r@ == joined(under_root("submission_diffs"@), student@),
{
    join(diff_dir().as_str(), student)
}

/// The directory of the staging areas.
pub fn projects_dir() -> (r: String)
    ensures
        r@ == under_root("projects"@),
{
    join(darwin_root().as_str(), "projects")
}

/// The staging area of `student`.
pub fn student_project_file(student: &str) -> (r: String)
    ensures
        r@ == joined(under_root("projects"@), student@),
{
    join(projects_dir().as_str(), student)
}

/// The directory of the stored results.
pub fn results_dir() -> (r: String)
    ensures
        r@ == under_root("results"@),
{
    join(darwin_root().as_str(), "results")
}

/// The name of the result of `student` for `test`.
pub open spec fn result_name(student: Seq<char>, test: Seq<char>) -> Seq<char> {
    student + seq!['_'] + test
}

/// The stored result of `student` for `test`.
pub fn student_result_file(student: &str, test: &str) -> (r: String)
    ensures
        r@ == joined(under_root("results"@), result_name(student@, test@)),
{
    let mut name = student.to_owned();
    name.append("_");
    name.append(test);
    proof {
        reveal_strlit("_");
    }
    join(results_dir().as_str(), name.as_str())
}

/// The log of the students whose projects did not compile.
pub fn compile_errors_file() -> (r: String)
    ensures
        r@ == joined(under_root("results"@), "compile_errors"@),
{
    join(results_dir().as_str(), "compile_errors")
}

/// The diffable skeleton.
pub fn skel_dir() -> (r: String)
    ensures
        r@ == under_root("skel"@),
{
    join(darwin_root().as_str(), "skel")
}

/// The pristine copies of the paths that students cannot influence.
pub fn diff_exclude_dir() -> (r: String)
    ensures
        r@ == under_root("diff_exclude"@),
{
    join(darwin_root().as_str(), "diff_exclude")
}

} // verus!
