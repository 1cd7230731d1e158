use jot::candidate_filename;
use jot::choose_destination;
use jot::first_free_candidate;
use jot::resolve_destination;

fn names(list: &[&str]) -> Vec<String> {
    list.iter().map(|s| s.to_string()).collect()
}

#[test]
fn candidate_bare_slug_first() {
    assert_eq!(candidate_filename("foo", 0), "foo.md");
}

#[test]
fn candidate_zero_padded_suffixes() {
    assert_eq!(candidate_filename("foo", 1), "foo-001.md");
    assert_eq!(candidate_filename("foo", 12), "foo-012.md");
    assert_eq!(candidate_filename("foo", 123), "foo-123.md");
    assert_eq!(candidate_filename("foo", 1000), "foo-1000.md");
}

#[test]
fn placement_in_empty_directory() {
    let r = first_free_candidate("foo", &names(&[]), 10);
    assert_eq!(r, Some("foo.md".to_string()));
}

#[test]
fn placement_avoids_existing_file() {
    let existing = names(&["foo.md"]);
    let r = first_free_candidate("foo", &existing, 10).unwrap();
    assert_eq!(r, "foo-001.md");
    assert!(!existing.contains(&r));
}

#[test]
fn placement_skips_all_taken_candidates() {
    let existing = names(&["foo.md", "foo-001.md", "foo-002.md", "bar.md"]);
    let r = first_free_candidate("foo", &existing, 10).unwrap();
    assert_eq!(r, "foo-003.md");
    assert!(!existing.contains(&r));
}

#[test]
fn placement_exhausted_when_every_attempt_collides() {
    let existing = names(&["foo.md", "foo-001.md"]);
    assert_eq!(first_free_candidate("foo", &existing, 1), None);
}

#[test]
fn placement_succeeds_when_attempts_outnumber_names() {
    // With as many attempts as existing names a free candidate always exists.
    let existing = names(&["foo.md", "foo-001.md", "foo-002.md"]);
    let r = first_free_candidate("foo", &existing, 3);
    assert_eq!(r, Some("foo-003.md".to_string()));
}

#[test]
fn destination_for_simple_title() {
    let r = choose_destination("Draft A", &names(&[]), 10);
    assert_eq!(r, Some("draft-a.md".to_string()));
}

#[test]
fn destination_strips_unsafe_characters() {
    let r = choose_destination("My Test String!!!1!1", &names(&[]), 10);
    assert_eq!(r, Some("my-test-string-1-1.md".to_string()));
}

#[test]
fn full_pipeline_from_content_to_destination() {
    // Extracted title, confirmed unchanged, slugified, steered past a
    // collision.
    let existing = names(&["draft-a.md"]);
    let responses = vec!["n".to_string()];
    let r = resolve_destination(&None, "# Draft A\nbody", &responses, &existing, 10);
    assert_eq!(r, Some("draft-a-001.md".to_string()));
}

#[test]
fn full_pipeline_runs_out_of_responses() {
    let r = resolve_destination(&None, "# Draft A", &names(&[]), &names(&[]), 10);
    assert_eq!(r, None);
}

#[test]
fn slug_is_deterministic() {
    let a = choose_destination("Same Title", &names(&[]), 10);
    let b = choose_destination("Same Title", &names(&[]), 10);
    assert_eq!(a, b);
}

#[test]
fn destination_never_lands_on_existing_file() {
    let existing = names(&["foo.md"]);
    let r = choose_destination("foo", &existing, 10).unwrap();
    assert_eq!(r, "foo-001.md");
    assert!(!existing.contains(&r));
}
