use levelnotes::merge::{first_write_preview, merge_tags, merge_text};
use levelnotes::paths::path_is_sandboxed;
use levelnotes::text::sanitize_filename;

fn tags(v: &[&str]) -> Vec<String> {
    v.iter().map(|s| s.to_string()).collect()
}

#[test]
fn merge_text_empty_addition_is_noop() {
    let existing = Some("Hello world".to_string());
    assert_eq!(merge_text(&existing, ""), "Hello world");
}

#[test]
fn merge_text_absent_existing_takes_addition() {
    assert_eq!(merge_text(&None, "fresh"), "fresh");
}

#[test]
fn merge_text_empty_existing_takes_addition() {
    let existing = Some(String::new());
    assert_eq!(merge_text(&existing, "fresh"), "fresh");
}

#[test]
fn merge_text_concatenates_with_blank_line() {
    let existing = Some("Hello world".to_string());
    assert_eq!(merge_text(&existing, "More info"), "Hello world\n\nMore info");
}

#[test]
fn merge_text_duplicates_identical_addition() {
    let first = merge_text(&Some("x".to_string()), "x");
    let second = merge_text(&Some(first.clone()), "x");
    assert_eq!(first, "x\n\nx");
    assert_eq!(second, "x\n\nx\n\nx");
}

#[test]
fn merge_tags_sorts_and_dedups() {
    let merged = merge_tags(&tags(&["ml"]), &tags(&["ml", "ai"]));
    assert_eq!(merged, tags(&["ai", "ml"]));
}

#[test]
fn merge_tags_trims_and_drops_empties() {
    let merged = merge_tags(&tags(&[]), &tags(&["  ml  ", "", "   ", "ai"]));
    assert_eq!(merged, tags(&["ai", "ml"]));
}

#[test]
fn merge_tags_idempotent_on_repeat() {
    let additions = tags(&["beta", "alpha", "beta"]);
    let once = merge_tags(&tags(&["gamma"]), &additions);
    let twice = merge_tags(&once, &additions);
    assert_eq!(once, twice);
    assert_eq!(once, tags(&["alpha", "beta", "gamma"]));
}

#[test]
fn merge_tags_order_of_batches_is_irrelevant() {
    let base = tags(&["m"]);
    let a = tags(&["x", "y"]);
    let b = tags(&["y", "z"]);
    let ab = merge_tags(&merge_tags(&base, &a), &b);
    let ba = merge_tags(&merge_tags(&base, &b), &a);
    assert_eq!(ab, ba);
    assert_eq!(ab, tags(&["m", "x", "y", "z"]));
}

#[test]
fn merge_tags_never_removes() {
    let merged = merge_tags(&tags(&["keep"]), &tags(&[]));
    assert_eq!(merged, tags(&["keep"]));
}

#[test]
fn first_write_preview_keeps_existing() {
    let existing = Some("previews/a.png".to_string());
    let candidate = Some("previews/b.png".to_string());
    assert_eq!(first_write_preview(&existing, &candidate), existing);
}

#[test]
fn first_write_preview_takes_candidate_when_absent() {
    let candidate = Some("previews/b.png".to_string());
    assert_eq!(first_write_preview(&None, &candidate), candidate);
    assert_eq!(first_write_preview(&None, &None), None);
}

#[test]
fn sanitize_filename_replaces_and_trims() {
    assert_eq!(sanitize_filename("Hello, world!"), "Hello- world-");
    assert_eq!(sanitize_filename("  spaced  "), "spaced");
    assert_eq!(sanitize_filename("under_score-kept 9"), "under_score-kept 9");
}

#[test]
fn sanitize_filename_caps_at_sixty_characters() {
    let long: String = "a".repeat(100);
    assert_eq!(sanitize_filename(&long), "a".repeat(60));
}

#[test]
fn sanitize_filename_falls_back_to_note() {
    assert_eq!(sanitize_filename(""), "note");
    assert_eq!(sanitize_filename("   "), "note");
}

#[test]
fn sandboxed_paths_accept_plain_relative_locators() {
    assert!(path_is_sandboxed("previews/abc-123.png"));
    assert!(path_is_sandboxed("a/b/c.txt"));
    assert!(path_is_sandboxed("..png"));
    assert!(path_is_sandboxed("notes..md"));
}

#[test]
fn sandboxed_paths_reject_traversal_and_absolutes() {
    assert!(!path_is_sandboxed(""));
    assert!(!path_is_sandboxed("/etc/passwd"));
    assert!(!path_is_sandboxed("\\server\\share"));
    assert!(!path_is_sandboxed("c:file"));
    assert!(!path_is_sandboxed(".."));
    assert!(!path_is_sandboxed("../secret"));
    assert!(!path_is_sandboxed("a/../b"));
    assert!(!path_is_sandboxed("a/.."));
}

#[test]
fn merge_tags_trims_unicode_whitespace() {
    let merged = merge_tags(&tags(&[]), &tags(&["ml\u{00A0}", "\u{2003}ai", "\u{000C}\u{0085}"]));
    assert_eq!(merged, tags(&["ai", "ml"]));
}
