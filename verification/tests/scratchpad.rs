use jot::scratch_content_after;
use jot::scratch_entry;

#[test]
fn scratch_entry_is_message_on_new_line() {
    assert_eq!(scratch_entry("a reminder"), "\na reminder");
}

#[test]
fn scratch_append_twice_keeps_both_in_order() {
    let after_first = scratch_content_after("", "a");
    assert_eq!(after_first, "\na");
    let after_second = scratch_content_after(&after_first, "b");
    assert_eq!(after_second, "\na\nb");
    // The first message is still there, on its own line, before the second.
    assert!(after_second.starts_with(&after_first));
    let lines: Vec<&str> = after_second.lines().collect();
    assert_eq!(lines, vec!["", "a", "b"]);
}

#[test]
fn scratch_append_never_truncates() {
    let old = "\nexisting note";
    let new = scratch_content_after(old, "fresh note");
    assert!(new.starts_with(old));
    assert_eq!(new, "\nexisting note\nfresh note");
}
