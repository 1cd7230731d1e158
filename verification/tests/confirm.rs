use jot::confirm_step;
use jot::resolve_raw_title;
use jot::resolve_title;
use jot::run_confirm;
use jot::ConfirmStep;

fn responses(lines: &[&str]) -> Vec<String> {
    lines.iter().map(|s| s.to_string()).collect()
}

#[test]
fn confirm_step_yes_asks_for_new() {
    assert_eq!(confirm_step("y"), ConfirmStep::AskForNew);
    assert_eq!(confirm_step("Y"), ConfirmStep::AskForNew);
}

#[test]
fn confirm_step_no_and_empty_accept() {
    assert_eq!(confirm_step("n"), ConfirmStep::AcceptCurrent);
    assert_eq!(confirm_step("N"), ConfirmStep::AcceptCurrent);
    assert_eq!(confirm_step(""), ConfirmStep::AcceptCurrent);
}

#[test]
fn confirm_step_anything_else_retries() {
    assert_eq!(confirm_step("x"), ConfirmStep::Retry);
    assert_eq!(confirm_step("yes"), ConfirmStep::Retry);
    assert_eq!(confirm_step("no"), ConfirmStep::Retry);
}

#[test]
fn confirm_invalid_then_accept_keeps_title() {
    let r = run_confirm("Draft A", &responses(&["x", "n"]));
    assert_eq!(r, Some("Draft A".to_string()));
}

#[test]
fn confirm_reject_takes_new_filename() {
    let r = run_confirm("Draft A", &responses(&["y", "Renamed"]));
    assert_eq!(r, Some("Renamed".to_string()));
}

#[test]
fn confirm_empty_response_accepts() {
    let r = run_confirm("Draft A", &responses(&[""]));
    assert_eq!(r, Some("Draft A".to_string()));
}

#[test]
fn confirm_responses_exhausted() {
    assert_eq!(run_confirm("Draft A", &responses(&["zzz"])), None);
    assert_eq!(run_confirm("Draft A", &responses(&[])), None);
}

#[test]
fn explicit_title_bypasses_content() {
    let r = resolve_raw_title(&Some("Explicit".to_string()), "# from content");
    assert_eq!(r, Some("Explicit".to_string()));
}

#[test]
fn extracted_title_used_without_explicit() {
    let r = resolve_raw_title(&None, "# from content");
    assert_eq!(r, Some("from content".to_string()));
}

#[test]
fn no_title_found_anywhere() {
    assert_eq!(resolve_raw_title(&None, "just text"), None);
}

#[test]
fn resolve_title_confirms_extracted() {
    let r = resolve_title(&None, "# heading here", &responses(&["n"]));
    assert_eq!(r, Some("heading here".to_string()));
}

#[test]
fn resolve_title_asks_directly_when_nothing_found() {
    let r = resolve_title(&None, "no heading", &responses(&["typed name"]));
    assert_eq!(r, Some("typed name".to_string()));
}

#[test]
fn resolve_title_explicit_goes_through_confirmation() {
    let r = resolve_title(&Some("Given".to_string()), "# other", &responses(&["y", "Better"]));
    assert_eq!(r, Some("Better".to_string()));
}
