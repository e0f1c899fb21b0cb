use darwin::darwin_config::{CompileErrorLog, DarwinConfig};
use darwin::maven::{list_tests, report_file_name, test_name, test_names, test_selector};
use darwin::project::ProjectType;
use darwin::results::parse_test_results;
use darwin::surefire::{parse_result_report, parse_surefire_events, XmlItem};
use darwin::text::decimal_text;
use darwin::types::{StatusMsg, TestResult, TestResultError, TestResults, TestState};

const REPORT: &str = r#"<?xml version="1.0" encoding="UTF-8"?>
<testsuite name="pa.AppTest" tests="3">
  <testcase name="adds" classname="pa.AppTest" time="0.012"/>
  <testcase name="subtracts" classname="pa.AppTest" time="0.003">
    <failure message="expected 2" type="java.lang.AssertionError"><![CDATA[trace here]]></failure>
  </testcase>
  <testcase name="reads" classname="pa.IoTest" time="1.5">
    <error type="java.io.IOException"/>
  </testcase>
</testsuite>
"#;

fn strings(v: &[&str]) -> Vec<String> {
    v.iter().map(|s| s.to_string()).collect()
}

fn result(name: &str, class: &str, msg: StatusMsg) -> TestResult {
    TestResult { name: name.to_string(), classname: class.to_string(), time: String::from("0.1"), msg }
}

fn failure() -> StatusMsg {
    StatusMsg::Failure { message: None, type_: String::from("E"), full_message: None }
}

fn error() -> StatusMsg {
    StatusMsg::Error { message: None, type_: String::from("E"), full_message: None }
}

fn sample() -> TestResults {
    TestResults {
        student: String::from("alice"),
        test: String::from("T"),
        state: TestState::Ran {
            results: vec![
                result("a", "C1", StatusMsg::Passed),
                result("b", "C2", failure()),
                result("c", "C1", error()),
                result("d", "C1", StatusMsg::Passed),
            ],
        },
    }
}

#[test]
fn a_surefire_report_is_read() {
    let results = parse_result_report(REPORT.as_bytes()).unwrap();
    assert_eq!(results.len(), 3);
    assert_eq!(results[0].name, "adds");
    assert_eq!(results[0].classname, "pa.AppTest");
    assert_eq!(results[0].time, "0.012");
    assert_eq!(results[0].msg, StatusMsg::Passed);
    assert_eq!(
        results[1].msg,
        StatusMsg::Failure {
            message: Some(String::from("expected 2")),
            type_: String::from("java.lang.AssertionError"),
            full_message: Some(String::from("trace here")),
        }
    );
    assert_eq!(results[2].classname, "pa.IoTest");
    assert_eq!(
        results[2].msg,
        StatusMsg::Error { message: None, type_: String::from("java.io.IOException"), full_message: None }
    );
}

#[test]
fn malformed_reports_are_errors() {
    assert!(matches!(parse_result_report(b"<testsuite><testcase"), Err(TestResultError::IOError(_))));
    let missing_time = b"<testsuite><testcase name=\"a\" classname=\"b\"/></testsuite>";
    assert!(matches!(parse_result_report(missing_time), Err(TestResultError::IOError(_))));
}

#[test]
fn events_without_a_testcase_give_nothing() {
    let items = vec![XmlItem::Start { name: String::from("testsuite"), attributes: Vec::new() }, XmlItem::Other];
    assert_eq!(parse_surefire_events(&items).unwrap().len(), 0);
}

#[test]
fn the_summary_counts_each_ending() {
    let r = sample();
    assert_eq!(r.summary(), (false, 2, 1, 1));
    assert_eq!(r.summarize(), "alice_T: Compilation Error: false, Correct: 2, Errored: 1, Failed: 1");
    let c = TestResults { student: String::from("bob"), test: String::from("T"), state: TestState::CompilationError };
    assert_eq!(c.summary(), (true, 0, 0, 0));
    assert_eq!(c.summarize(), "bob_T: Compilation Error: true, Correct: 0, Errored: 0, Failed: 0");
    assert!(c.group_by_classname().is_none());
    assert!(c.summarize_by_classname().is_none());
}

#[test]
fn results_are_grouped_by_class() {
    let r = sample();
    let groups = r.group_by_classname().unwrap();
    assert_eq!(groups, vec![(String::from("C1"), vec![0, 2, 3]), (String::from("C2"), vec![1])]);
    let counts = r.summarize_by_classname().unwrap();
    assert_eq!(counts, vec![(String::from("C1"), (2, 1, 0)), (String::from("C2"), (0, 0, 1))]);
}

#[test]
fn numbers_are_written_in_decimal() {
    assert_eq!(decimal_text(0), "0");
    assert_eq!(decimal_text(7), "7");
    assert_eq!(decimal_text(10), "10");
    assert_eq!(decimal_text(40512), "40512");
}

#[test]
fn looking_up_results() {
    let students = strings(&["alice", "bob"]);
    let config = DarwinConfig::new(ProjectType::MavenSurefire, strings(&["pa.AppTest"]), Vec::new());
    let log = CompileErrorLog::parse("bob\n");
    let r = parse_test_results(&students, &config, &log, "carol", "pa.AppTest", None);
    assert!(matches!(r, Err(TestResultError::IOError(_))));
    let r = parse_test_results(&students, &config, &log, "alice", "Nope", None);
    assert!(matches!(r, Err(TestResultError::IOError(_))));
    let r = parse_test_results(&students, &config, &log, "bob", "pa.AppTest", Some(REPORT.as_bytes())).unwrap();
    assert!(matches!(r.state, TestState::CompilationError));
    let r = parse_test_results(&students, &config, &log, "alice", "pa.AppTest", None);
    assert!(matches!(r, Err(TestResultError::TestsNotRun)));
    let r = parse_test_results(&students, &config, &log, "alice", "pa.AppTest", Some(REPORT.as_bytes())).unwrap();
    assert_eq!(r.summary(), (false, 1, 1, 1));
}

#[test]
fn maven_test_names() {
    assert_eq!(test_name("com/example/FooTest.java"), Some(String::from("com.example.FooTest")));
    assert_eq!(test_name("FooTest.java"), Some(String::from("FooTest")));
    assert_eq!(test_name("README.md"), None);
    assert_eq!(test_name(".java"), None);
    assert_eq!(
        test_names(&strings(&["a/B.java", "notes.txt", "C.java"])),
        strings(&["a.B", "C"])
    );
    assert_eq!(report_file_name("pa.AppTest"), "TEST-pa.AppTest.xml");
    assert_eq!(test_selector("pa.AppTest"), "-Dtest=pa.AppTest");
}

#[test]
fn maven_tests_are_listed_once_in_order() {
    assert_eq!(
        list_tests(&strings(&["b/Z.java", "A.java", "b/Z.java", "notes.txt", "a/B.java"])),
        strings(&["A", "a.B", "b.Z"])
    );
    assert_eq!(list_tests(&[]), Vec::<String>::new());
}
