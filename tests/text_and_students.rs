use darwin::plagiarism::{diff_header, plagiarism_check_students, strip_diff_headers, PlagiarismError};
use darwin::prompt::{auto_select_step, is_yes, prompt_digit, prompt_yn, selected_tests, SelectionStep};
use darwin::students::{check_create_inputs, extension, list_students, submission_student, CreateError, EntryError};
use darwin::text::{buffer_flatmap, contains_text, replace_lines, split_lines};
use darwin::types::{StatusMsg, TestResult, TestResults, TestState, ViewMode};

fn strings(v: &[&str]) -> Vec<String> {
    v.iter().map(|s| s.to_string()).collect()
}

#[test]
fn buffer_filter_test() {
    let source = String::from("Hello\nworld\nHow\nAre");
    let actual = buffer_flatmap(&source, "Hello", None);
    let expected = String::from("world\nHow\nAre");
    assert_eq!(actual.as_bytes(), expected.as_bytes());
}

#[test]
fn file_replace_line_test() {
    let contents = "a\nb\na\na\naa\n\nbb";
    let actual_contents = replace_lines(contents, "a", "c\n");
    let expected_contents = "c\nb\nc\nc\nc\n\nbb";
    assert_eq!(actual_contents, expected_contents);
}

#[test]
fn lines_keep_their_line_feeds() {
    assert_eq!(split_lines("a\n\nb"), strings(&["a\n", "\n", "b"]));
    assert_eq!(split_lines(""), Vec::<String>::new());
    assert!(contains_text("abcabd", "abd"));
    assert!(!contains_text("ab", "abc"));
    assert!(contains_text("ab", ""));
}

#[test]
fn students_are_sorted() {
    assert_eq!(
        list_students(strings(&["carol", "alice", "bob", "al", "alice"])),
        strings(&["al", "alice", "alice", "bob", "carol"])
    );
    assert_eq!(list_students(Vec::new()), Vec::<String>::new());
    assert_eq!(list_students(strings(&["Zed", "abe"])), strings(&["Zed", "abe"]));
}

#[test]
fn inner_archives_name_their_student() {
    assert_eq!(submission_student("jdoe_1234_assignsubmission_file_.zip"), Ok(String::from("jdoe")));
    assert_eq!(submission_student("notes.txt"), Err(EntryError::NotAnArchive));
    assert_eq!(submission_student("nounderscore.zip"), Err(EntryError::NoStudentId));
    assert_eq!(extension("a/b.tar.gz"), Some(String::from("gz")));
    assert_eq!(extension(".zip"), None);
    assert_eq!(extension("dir/.x.zip"), Some(String::from("zip")));
    assert_eq!(extension("plain"), None);
}

#[test]
fn creating_a_project_checks_its_inputs() {
    assert_eq!(check_create_inputs(true, true, true, "s.zip"), Err(CreateError::AlreadyExists));
    assert_eq!(check_create_inputs(false, false, true, "s.zip"), Err(CreateError::SkeletonNotADirectory));
    assert_eq!(check_create_inputs(false, true, false, "s.zip"), Err(CreateError::NotAnArchive));
    assert_eq!(check_create_inputs(false, true, true, "s.tar"), Err(CreateError::NotAnArchive));
    assert_eq!(check_create_inputs(false, true, true, "s.zip"), Ok(()));
    assert_eq!(check_create_inputs(false, true, true, "submissions"), Ok(()));
}

#[test]
fn answers_are_read() {
    assert!(prompt_yn("y\n"));
    assert!(prompt_yn("Y\n"));
    assert!(prompt_yn("y"));
    assert!(!prompt_yn("yes\n"));
    assert!(!prompt_yn("\n"));
    assert!(is_yes("y"));
    assert_eq!(prompt_digit("4\n"), Some(4));
    assert_eq!(prompt_digit("+12"), Some(12));
    assert_eq!(prompt_digit("007\n"), Some(7));
    assert_eq!(prompt_digit("\n"), None);
    assert_eq!(prompt_digit("+"), None);
    assert_eq!(prompt_digit("4a\n"), None);
    assert_eq!(prompt_digit("-1\n"), None);
    assert_eq!(prompt_digit("99999999999999999999999\n"), None);
    assert_eq!(prompt_digit("18446744073709551615"), Some(usize::MAX));
}

const DIFF_A: &str = "diff -ruN skel/src/main/java/App.java sub/src/main/java/App.java
--- skel/src/main/java/App.java
+++ sub/src/main/java/App.java
@@ -1,3 +1,12 @@
+public class App {
+    public static int add(int a, int b) { return a + b; }
+    public static int sub(int a, int b) { return a - b; }
+    public static void main(String[] args) { System.out.println(add(2, 3)); }
+}
";

const DIFF_B: &str = "diff -ruN skel/src/main/java/App.java sub/src/main/java/App.java
--- skel/src/main/java/App.java
+++ sub/src/main/java/App.java
@@ -1,3 +1,12 @@
+public class App {
+    public static int add(int x, int y) { return x + y; }
+    public static int mul(int x, int y) { return x * y; }
+    public static void main(String[] args) { System.out.println(mul(2, 3)); }
+}
";

#[test]
fn diff_headers_are_left_out() {
    assert!(diff_header("  --- a"));
    assert!(diff_header("@@ -1 +1 @@\n"));
    assert!(!diff_header("+ x--- "));
    assert_eq!(strip_diff_headers("diff -ruN a b\n--- a\n+++ b\n@@ x\n+code\n-old\n"), "+code\n-old\n");
}

#[test]
fn two_submissions_are_compared() {
    let students = strings(&["alice", "bob"]);
    let same = plagiarism_check_students(&students, "alice", "bob", DIFF_A, DIFF_A).unwrap();
    let other = plagiarism_check_students(&students, "alice", "bob", DIFF_A, DIFF_B).unwrap();
    assert_eq!(same, 0);
    assert!(other > 0);
    assert_eq!(
        plagiarism_check_students(&students, "eve", "bob", DIFF_A, DIFF_A),
        Err(PlagiarismError::NotAStudent(String::from("eve")))
    );
    assert_eq!(
        plagiarism_check_students(&students, "alice", "eve", DIFF_A, DIFF_A),
        Err(PlagiarismError::NotAStudent(String::from("eve")))
    );
    assert_eq!(
        plagiarism_check_students(&students, "alice", "bob", "+x\n", DIFF_A),
        Err(PlagiarismError::NoHash(String::from("alice")))
    );
}

#[test]
fn results_are_shown_in_each_mode() {
    let r = TestResults {
        student: String::from("alice"),
        test: String::from("T"),
        state: TestState::Ran {
            results: vec![
                TestResult { name: String::from("a"), classname: String::from("C1"), time: String::from("0.1"), msg: StatusMsg::Passed },
                TestResult {
                    name: String::from("b"),
                    classname: String::from("C2"),
                    time: String::from("0.2"),
                    msg: StatusMsg::Error { message: None, type_: String::from("E"), full_message: None },
                },
            ],
        },
    };
    assert_eq!(r.print(), "alice_T C1: 1 passed, 0 errored, 0 failed; C2: 0 passed, 1 errored, 0 failed; ");
    assert_eq!(r.everything(), "a (C1): passed\nb (C2): errored\n");
    assert_eq!(r.view(ViewMode::Summarize), r.summarize());
    assert_eq!(r.view(ViewMode::ClassName), r.print());
    assert_eq!(r.view(ViewMode::Everything), r.everything());
    let c = TestResults { student: String::from("bob"), test: String::from("T"), state: TestState::CompilationError };
    assert_eq!(c.print(), "bob_T compilation error");
    assert_eq!(c.everything(), "compilation error\n");
}

#[test]
fn tests_are_chosen_line_by_line() {
    let tests = strings(&["T0", "T1", "T2"]);
    let mut chosen = vec![false; 3];
    assert_eq!(auto_select_step(&mut chosen, "2\n"), SelectionStep::Continue);
    assert_eq!(auto_select_step(&mut chosen, "0\n"), SelectionStep::Continue);
    assert_eq!(auto_select_step(&mut chosen, "2\n"), SelectionStep::Continue);
    assert_eq!(auto_select_step(&mut chosen, "7\n"), SelectionStep::Continue);
    assert_eq!(auto_select_step(&mut chosen, "what\n"), SelectionStep::Continue);
    assert_eq!(chosen, vec![true, false, false]);
    assert_eq!(auto_select_step(&mut chosen, "1\n"), SelectionStep::Continue);
    assert_eq!(auto_select_step(&mut chosen, "NEXT\n"), SelectionStep::Done);
    assert_eq!(selected_tests(&tests, &chosen), strings(&["T0", "T1"]));
    assert_eq!(auto_select_step(&mut chosen, "Exit\n"), SelectionStep::Quit);
}
