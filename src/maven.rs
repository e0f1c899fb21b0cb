//! What is particular to Maven projects whose tests report through
//! Surefire: test names, and where a test's report is written.
use vstd::prelude::*;

use crate::paths::{components, join_sep, join_with, lemma_strs_push, split_path, strs};

verus! {

/// Whether `s` ends with `suffix`.
pub open spec fn ends_with(s: Seq<char>, suffix: Seq<char>) -> bool {
    suffix.len() <= s.len() && s.skip(s.len() - suffix.len()) == suffix
}

/// The test named by the source file `file`, relative to the test sources:
/// its components joined by dots, without `.java`; none for other files.
pub open spec fn test_name_of(file: Seq<char>) -> Option<Seq<char>> {
    let cs = components(file);
    if cs.len() > 0 && ends_with(cs.last(), ".java"@) && cs.last().len() > 5 {
        Some(
            join_sep(cs.drop_last().push(cs.last().take(cs.last().len() - 5)), seq!['.']),
        )
    } else {
        None
    }
}

/// The tests named by the source files `files`, in order.
pub open spec fn test_names_of(files: Seq<Seq<char>>) -> Seq<Seq<char>>
    decreases files.len(),
{
    if files.len() == 0 {
        seq![]
    } else {
        match test_name_of(files.last()) {
            Some(n) => test_names_of(files.drop_last()).push(n),
            None => test_names_of(files.drop_last()),
        }
    }
}

/// Whether `s` ends with `.java`.
fn is_java_source(s: &str) -> (r: bool)
    ensures
        r == ends_with(s@, ".java"@),
{
    proof {
        reveal_strlit(".java");
    }
    let n = s.unicode_len();
    if n < 5 {
        return false;
    }
    let tail = s.substring_char(n - 5, n);
    let r = crate::paths::str_eq(tail, ".java");
    assert(s@.skip(n - 5) =~= s@.subrange(n - 5, n as int));
    r
}

/// The test named by `file`.
pub fn test_name(file: &str) -> (r: Option<String>)
    ensures
        match r {
            Some(n) => test_name_of(file@) == Some(n@),
            None => test_name_of(file@) is None,
        },
{
    proof {
        reveal_strlit(".java");
        reveal_strlit(".");
        assert("."@ =~= seq!['.']);
    }
    let mut parts = split_path(file);
    let k = parts.len();
    if k == 0 {
        return None;
    }
    let last = parts[k - 1].as_str();
    if !is_java_source(last) {
        return None;
    }
    let n = last.unicode_len();
    if n <= 5 {
        return None;
    }
    let stem = last.substring_char(0, n - 5).to_owned();
    let ghost cs = strs(parts@);
    parts.set(k - 1, stem);
    assert(strs(parts@) =~= cs.drop_last().push(cs.last().take(cs.last().len() - 5)));
    Some(join_with(parts.as_slice(), "."))
}

/// The tests named by the test source files `files` (paths relative to the
/// test sources), in order.
pub fn test_names(files: &[String]) -> (r: Vec<String>)
    ensures
        strs(r@) == test_names_of(strs(files@)),
{
    let mut out: Vec<String> = Vec::new();
    let mut i: usize = 0;
    while i < files.len()
        invariant
            i <= files@.len(),
            strs(out@) == test_names_of(strs(files@).take(i as int)),
        decreases files@.len() - i,
    {
        assert(strs(files@).take(i + 1).drop_last() =~= strs(files@).take(i as int));
        assert(strs(files@).take(i + 1).last() == files@[i as int]@);
        match test_name(files[i].as_str()) {
            Some(n) => {
                let ghost before = out@;
                out.push(n);
                proof {
                    lemma_strs_push(before, n);
                }
            },
            None => {},
        }
        i = i + 1;
    }
    assert(strs(files@).take(files@.len() as int) =~= strs(files@));
    out
}

/// The tests of a Maven project whose test source files are `files`: each
/// test once, in order.
pub fn list_tests(files: &[String]) -> (r: Vec<String>)
    ensures
        crate::students::strictly_sorted(strs(r@)),
        strs(r@).no_duplicates(),
        strs(r@).to_set() == test_names_of(strs(files@)).to_set(),
{
    crate::students::sorted_unique(test_names(files))
}

/// The name of the report that Surefire writes for `test`.
pub fn report_file_name(test: &str) -> (r: String)
    ensures
        r@ == "TEST-"@ + test@ + ".xml"@,
{
    let mut out = "TEST-".to_owned();
    out.append(test);
    out.append(".xml");
    out
}

/// The argument that selects `test` for Surefire.
pub fn test_selector(test: &str) -> (r: String)
    ensures
        r@ == "-Dtest="@ + test@,
{
    let mut out = "-Dtest=".to_owned();
    out.append(test);
    out
}

} // verus!
