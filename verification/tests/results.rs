//! The result snapshot types and the error taxonomy.

use laboratory::error::Error;
use laboratory::spec_result::SpecResult;
use laboratory::suite_result::SuiteResult;

#[test]
fn err_msg_spec() {
    let r = SpecResult::new("name", "name", None, &None, 0);
    assert_eq!(r.get_err_msg(), "");
}

#[test]
fn spec_result_carries_its_snapshot() {
    let err = Some(Error::Assertion(String::from("nope")));
    let r = SpecResult::new("suite", "case", Some(false), &err, 41);
    assert_eq!(r.get_name(), "case");
    assert_eq!(r.get_full_name(), "suite case");
    assert_eq!(r.get_pass(), Some(false));
    assert_eq!(r.get_err_msg(), "nope");
    assert_eq!(r.get_duration(), 41);
    assert_eq!(r.update_passing(), 0);
    assert_eq!(r.update_failing(), 1);
    assert_eq!(r.update_ignored(), 0);
    let copy = r.clone();
    assert_eq!(copy.get_full_name(), "suite case");
    assert_eq!(copy.get_err_msg(), "nope");
}

#[test]
fn spec_result_tallies_by_verdict() {
    let passed = SpecResult::new("s", "p", Some(true), &None, 1);
    assert_eq!(passed.update_passing(), 1);
    assert_eq!(passed.update_failing(), 0);
    assert_eq!(passed.update_ignored(), 0);
    let ignored = SpecResult::new("s", "i", None, &None, 0);
    assert_eq!(ignored.update_passing(), 0);
    assert_eq!(ignored.update_failing(), 0);
    assert_eq!(ignored.update_ignored(), 1);
}

#[test]
fn suite_result_aggregates_bottom_up() {
    let mut root = SuiteResult::new("root");
    assert_eq!(root.get_name(), "root");
    root.update_from_spec(SpecResult::new("root", "a", Some(true), &None, 10));
    root.update_from_spec(SpecResult::new("root", "b", Some(false), &None, 5));
    root.update_from_spec(SpecResult::new("root", "c", None, &None, 0));
    assert_eq!(root.get_passing(), 1);
    assert_eq!(root.get_failing(), 1);
    assert_eq!(root.get_ignored(), 1);
    assert_eq!(root.get_duration(), 15);

    let mut child = SuiteResult::new("child");
    child.update_from_spec(SpecResult::new("child", "d", Some(true), &None, 7));
    root.updated_from_suite(Some(child));
    assert_eq!(root.get_passing(), 2);
    assert_eq!(root.get_duration(), 22);
    assert_eq!(root.get_child_suites().len(), 1);
    assert_eq!(root.get_child_specs().len(), 3);

    root.updated_from_suite(None);
    assert_eq!(root.get_passing(), 2);
    assert_eq!(root.get_child_suites().len(), 1);

    root.set_duration(100);
    assert_eq!(root.get_duration(), 100);

    let copy = root.clone();
    assert_eq!(copy.get_passing(), 2);
    assert_eq!(copy.get_child_suites()[0].get_name(), "child");
}

#[test]
fn error_messages() {
    assert_eq!(Error::Deserialize.to_string(), "Could not deserialize state.");
    assert_eq!(Error::Serialize.to_string(), "Could not serialize state");
    assert_eq!(
        Error::Assertion(String::from("what happened")).to_string(),
        "what happened"
    );
    assert_eq!(
        Error::ResultsNotFound.to_string(),
        "Results for the suite was not found"
    );
}
