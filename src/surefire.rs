//! Reading the test reports that Maven's Surefire plugin writes.
use vstd::prelude::*;

use crate::paths::str_eq;
use crate::types::{StatusMsg, TestResult, TestResultError};

verus! {

/// One event of an XML document, as far as a report needs it.
#[derive(Debug)]
pub enum XmlItem {
    /// An opening tag, with its attributes as (name, value) pairs.
    Start { name: String, attributes: Vec<(String, String)> },
    /// A closing tag.
    End { name: String },
    /// A CDATA section.
    CData { text: String },
    /// Anything else.
    Other,
}

/// The events of the XML document `b`, or none where it is malformed.
pub uninterp spec fn xml_items_of(b: Seq<u8>) -> Option<Seq<XmlItem>>;

/// Relies on xml-rs's `EventReader`: the events of a document, in order,
/// each converted one for one; the first error ends the document.
#[verifier::external_body]
fn xml_items(bytes: &[u8]) -> (r: Option<Vec<XmlItem>>)
    ensures
        match r {
            Some(v) => xml_items_of(bytes@) == Some(v@),
            None => xml_items_of(bytes@) is None,
        },
{
    let mut out = Vec::new();
    for e in xml::EventReader::new(bytes) {
        out.push(match e.ok()? {
            xml::reader::XmlEvent::StartElement { name, attributes, .. } => XmlItem::Start {
                name: name.borrow().to_repr(),
                attributes: attributes.into_iter().map(|a| (a.name.borrow().to_repr(), a.value)).collect(),
            },
            xml::reader::XmlEvent::EndElement { name } => XmlItem::End { name: name.borrow().to_repr() },
            xml::reader::XmlEvent::CData(text) => XmlItem::CData { text },
            _ => XmlItem::Other,
        });
    }
    Some(out)
}

/// How a test case ended, as characters.
pub enum MsgView {
    Passed,
    Failure { message: Option<Seq<char>>, type_: Seq<char>, full_message: Option<Seq<char>> },
    Error { message: Option<Seq<char>>, type_: Seq<char>, full_message: Option<Seq<char>> },
}

/// A test case, as characters: name, class, time and ending.
pub struct ResultView {
    pub name: Seq<char>,
    pub classname: Seq<char>,
    pub time: Seq<char>,
    pub msg: MsgView,
}

/// The characters of an optional string.
pub open spec fn opt_view(o: Option<String>) -> Option<Seq<char>> {
    match o {
        Some(s) => Some(s@),
        None => None,
    }
}

/// How a test case ended, as characters.
pub open spec fn msg_view(m: StatusMsg) -> MsgView {
    match m {
        StatusMsg::Passed => MsgView::Passed,
        StatusMsg::Failure { message, type_, full_message } => MsgView::Failure {
            message: opt_view(message),
            type_: type_@,
            full_message: opt_view(full_message),
        },
        StatusMsg::Error { message, type_, full_message } => MsgView::Error {
            message: opt_view(message),
            type_: type_@,
            full_message: opt_view(full_message),
        },
    }
}

/// A test case, as characters.
pub open spec fn result_view(r: TestResult) -> ResultView {
    ResultView { name: r.name@, classname: r.classname@, time: r.time@, msg: msg_view(r.msg) }
}

/// Test cases, as characters.
pub open spec fn results_view(rs: Seq<TestResult>) -> Seq<ResultView> {
    rs.map_values(|r: TestResult| result_view(r))
}

/// The value of the first attribute named `key`.
pub open spec fn attr_of(attrs: Seq<(String, String)>, key: Seq<char>) -> Option<Seq<char>>
    decreases attrs.len(),
{
    if attrs.len() == 0 {
        None
    } else if attrs[0].0@ == key {
        Some(attrs[0].1@)
    } else {
        attr_of(attrs.drop_first(), key)
    }
}

/// The test case being read: empty between test cases.
pub open spec fn blank() -> ResultView {
    ResultView { name: seq![], classname: seq![], time: seq![], msg: MsgView::Passed }
}

/// The state after `item`, with the test case that it ends, if any; none
/// where a tag lacks an attribute that a report must have.
pub open spec fn report_step(cur: ResultView, item: XmlItem) -> Option<(ResultView, Option<ResultView>)> {
    match item {
        XmlItem::Start { name, attributes } => if name@ == "testcase"@ {
            match (
                attr_of(attributes@, "name"@),
                attr_of(attributes@, "classname"@),
                attr_of(attributes@, "time"@),
            ) {
                (Some(n), Some(c), Some(t)) => Some(
                    (ResultView { name: n, classname: c, time: t, ..cur }, None),
                ),
                _ => None,
            }
        } else if name@ == "failure"@ || name@ == "error"@ {
            match attr_of(attributes@, "type"@) {
                Some(ty) => {
                    let message = attr_of(attributes@, "message"@);
                    let msg = if name@ == "failure"@ {
                        MsgView::Failure { message, type_: ty, full_message: None }
                    } else {
                        MsgView::Error { message, type_: ty, full_message: None }
                    };
                    Some((ResultView { msg, ..cur }, None))
                },
                None => None,
            }
        } else {
            Some((cur, None))
        },
        XmlItem::CData { text } => match cur.msg {
            MsgView::Passed => Some((cur, None)),
            MsgView::Failure { message, type_, .. } => Some(
                (
                    ResultView {
                        msg: MsgView::Failure { message, type_, full_message: Some(text@) },
                        ..cur
                    },
                    None,
                ),
            ),
            MsgView::Error { message, type_, .. } => Some(
                (
                    ResultView {
                        msg: MsgView::Error { message, type_, full_message: Some(text@) },
                        ..cur
                    },
                    None,
                ),
            ),
        },
        XmlItem::End { name } => if name@ == "testcase"@ {
            Some((blank(), Some(cur)))
        } else {
            Some((cur, None))
        },
        XmlItem::Other => Some((cur, None)),
    }
}

/// The state and the test cases after reading `items`; none where a tag
/// lacks an attribute that a report must have.
pub open spec fn report_fold(items: Seq<XmlItem>) -> Option<(ResultView, Seq<ResultView>)>
    decreases items.len(),
{
    if items.len() == 0 {
        Some((blank(), seq![]))
    } else {
        match report_fold(items.drop_last()) {
            None => None,
            Some((cur, done)) => match report_step(cur, items.last()) {
                None => None,
                Some((next, Some(r))) => Some((next, done.push(r))),
                Some((next, None)) => Some((next, done)),
            },
        }
    }
}

proof fn lemma_fold_stays_invalid(items: Seq<XmlItem>, k: int)
    requires
        0 <= k <= items.len(),
        report_fold(items.take(k)) is None,
    ensures
        report_fold(items) is None,
    decreases items.len() - k,
{
    if k < items.len() {
        assert(items.take(k + 1).drop_last() =~= items.take(k));
        lemma_fold_stays_invalid(items, k + 1);
    } else {
        assert(items.take(k) =~= items);
    }
}

/// The value of the first attribute named `key`.
fn find_attr(attrs: &Vec<(String, String)>, key: &str) -> (r: Option<String>)
    ensures
        opt_view(r) == attr_of(attrs@, key@),
{
    let mut i: usize = 0;
    assert(attrs@.skip(0) =~= attrs@);
    while i < attrs.len()
        invariant
            i <= attrs@.len(),
            attr_of(attrs@, key@) == attr_of(attrs@.skip(i as int), key@),
        decreases attrs@.len() - i,
    {
        assert(attrs@.skip(i as int).drop_first() =~= attrs@.skip(i + 1));
        if str_eq(attrs[i].0.as_str(), key) {
            return Some(attrs[i].1.clone());
        }
        i = i + 1;
    }
    None
}

/// A fresh string holding the characters of `s`.
fn copy_opt(s: &Option<String>) -> (r: Option<String>)
    ensures
        opt_view(r) == opt_view(*s),
{
    match s {
        Some(t) => Some(t.clone()),
        None => None,
    }
}

/// The test cases of a Surefire report given as XML events: each
/// `testcase` element gives one, with its name, class and time; a `failure`
/// or `error` element inside it, with its type and optional message, tells
/// how it ended, and a CDATA section after it its full message. A tag
/// without an attribute that a report must have makes the report invalid.
pub fn parse_surefire_events(items: &Vec<XmlItem>) -> (r: Result<Vec<TestResult>, TestResultError>)
    ensures
        match report_fold(items@) {
            Some((_, done)) => r matches Ok(v) && results_view(v@) == done,
            None => r matches Err(e) && e is IOError,
        },
{
    proof {
        reveal_strlit("testcase");
        reveal_strlit("failure");
        reveal_strlit("error");
    }
    let mut out: Vec<TestResult> = Vec::new();
    let mut name = String::new();
    let mut classname = String::new();
    let mut time = String::new();
    let mut msg = StatusMsg::Passed;
    let mut i: usize = 0;
    while i < items.len()
        invariant
            i <= items@.len(),
            report_fold(items@.take(i as int)) == Some(
                (
                    ResultView { name: name@, classname: classname@, time: time@, msg: msg_view(msg) },
                    results_view(out@),
                ),
            ),
        decreases items@.len() - i,
    {
        assert(items@.take(i + 1).drop_last() =~= items@.take(i as int));
        assert(items@.take(i + 1).last() == items@[i as int]);
        let ghost cur = ResultView {
            name: name@,
            classname: classname@,
            time: time@,
            msg: msg_view(msg),
        };
        match &items[i] {
            XmlItem::Start { name: tag, attributes } => {
                if str_eq(tag.as_str(), "testcase") {
                    let n = find_attr(attributes, "name");
                    let c = find_attr(attributes, "classname");
                    let t = find_attr(attributes, "time");
                    match (n, c, t) {
                        (Some(n), Some(c), Some(t)) => {
                            name = n;
                            classname = c;
                            time = t;
                        },
                        _ => {
                            proof {
                                lemma_fold_stays_invalid(items@, i + 1);
                            }
                            return Err(
                                TestResultError::IOError(
                                    "a testcase lacks its name, classname or time".to_owned(),
                                ),
                            );
                        },
                    }
                } else if str_eq(tag.as_str(), "failure") || str_eq(tag.as_str(), "error") {
                    match find_attr(attributes, "type") {
                        Some(type_) => {
                            let message = find_attr(attributes, "message");
                            if str_eq(tag.as_str(), "failure") {
                                msg = StatusMsg::Failure { message, type_, full_message: None };
                            } else {
                                msg = StatusMsg::Error { message, type_, full_message: None };
                            }
                        },
                        None => {
                            proof {
                                lemma_fold_stays_invalid(items@, i + 1);
                            }
                            return Err(
                                TestResultError::IOError(
                                    "a failure or error lacks its type".to_owned(),
                                ),
                            );
                        },
                    }
                }
            },
            XmlItem::CData { text } => {
                let next = match &msg {
                    StatusMsg::Passed => StatusMsg::Passed,
                    StatusMsg::Failure { message, type_, .. } => StatusMsg::Failure {
                        message: copy_opt(message),
                        type_: type_.clone(),
                        full_message: Some(text.clone()),
                    },
                    StatusMsg::Error { message, type_, .. } => StatusMsg::Error {
                        message: copy_opt(message),
                        type_: type_.clone(),
                        full_message: Some(text.clone()),
                    },
                };
                msg = next;
            },
            XmlItem::End { name: tag } => {
                if str_eq(tag.as_str(), "testcase") {
                    let ghost before = out@;
                    let done = TestResult { name, classname, time, msg };
                    out.push(done);
                    assert(results_view(out@) =~= results_view(before).push(cur));
                    name = String::new();
                    classname = String::new();
                    time = String::new();
                    msg = StatusMsg::Passed;
                    assert(name@ =~= seq![]);
                }
            },
            XmlItem::Other => {},
        }
        i = i + 1;
    }
    assert(items@.take(items@.len() as int) =~= items@);
    Ok(out)
}

/// The test cases of the Surefire report `bytes`; an error where it is not
/// well-formed XML or is not a valid report.
pub fn parse_result_report(bytes: &[u8]) -> (r: Result<Vec<TestResult>, TestResultError>)
    ensures
        match xml_items_of(bytes@) {
            None => r matches Err(e) && e is IOError,
            Some(items) => match report_fold(items) {
                Some((_, done)) => r matches Ok(v) && results_view(v@) == done,
                None => r matches Err(e) && e is IOError,
            },
        },
{
    match xml_items(bytes) {
        None => Err(TestResultError::IOError("the report is not well-formed XML".to_owned())),
        Some(items) => parse_surefire_events(&items),
    }
}

} // verus!
