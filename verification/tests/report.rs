//! Counting over a run.

use djade::report::{decimal, Action, Tally};

#[test]
fn test_summary_of_one_already_formatted() {
    let mut tally = Tally::new();
    assert_eq!(tally.record(false, false, false), Action::Nothing);
    assert_eq!(tally.returncode, 0);
    assert_eq!(tally.summary(false), "1 file already formatted");
}

#[test]
fn test_summary_of_one_reformatted() {
    let mut tally = Tally::new();
    assert_eq!(tally.record(true, false, false), Action::Write);
    assert_eq!(tally.returncode, 1);
    assert_eq!(tally.summary(false), "1 file reformatted");
}

#[test]
fn test_summary_in_check_mode() {
    let mut tally = Tally::new();
    assert_eq!(tally.record(true, true, false), Action::Announce);
    assert_eq!(tally.returncode, 1);
    assert_eq!(tally.summary(true), "1 file would be reformatted");
}

#[test]
fn test_summary_of_both_counts() {
    let mut tally = Tally::new();
    tally.record(true, false, false);
    tally.record(true, false, false);
    tally.record(false, false, false);
    assert_eq!(tally.summary(false), "2 files reformatted, 1 file already formatted");
    assert_eq!(tally.summary(true), "2 files would be reformatted, 1 file already formatted");
    tally.record(false, false, false);
    assert_eq!(tally.summary(false), "2 files reformatted, 2 files already formatted");
}

#[test]
fn test_summary_of_nothing_is_empty() {
    assert_eq!(Tally::new().summary(false), "");
    assert_eq!(Tally::new().summary(true), "");
}

#[test]
fn test_standard_input_is_printed_and_does_not_fail_the_run() {
    let mut tally = Tally::new();
    assert_eq!(tally.record(true, false, true), Action::Print);
    assert_eq!(tally.returncode, 0);
    assert_eq!(tally.summary(false), "1 file reformatted");
    assert_eq!(tally.record(false, false, true), Action::Print);
    assert_eq!(tally.returncode, 0);
}

#[test]
fn test_standard_input_in_check_mode() {
    let mut tally = Tally::new();
    assert_eq!(tally.record(true, true, true), Action::Announce);
    assert_eq!(tally.returncode, 1);
    let mut tally = Tally::new();
    assert_eq!(tally.record(false, true, true), Action::Nothing);
    assert_eq!(tally.returncode, 0);
    assert_eq!(tally.summary(true), "1 file already formatted");
}

#[test]
fn test_failure_sets_the_exit_code_and_no_count() {
    let mut tally = Tally::new();
    tally.record_failure();
    assert_eq!(tally.returncode, 1);
    assert_eq!(tally.reformatted, 0);
    assert_eq!(tally.already_formatted, 0);
    assert_eq!(tally.summary(false), "");
}

#[test]
fn test_exit_code_stays_once_set() {
    let mut tally = Tally::new();
    tally.record(true, false, false);
    tally.record(false, false, false);
    assert_eq!(tally.returncode, 1);
}

#[test]
fn test_decimal() {
    assert_eq!(decimal(0), "0");
    assert_eq!(decimal(7), "7");
    assert_eq!(decimal(10), "10");
    assert_eq!(decimal(1905), "1905");
    assert_eq!(decimal(usize::MAX), usize::MAX.to_string());
}
