use levelnotes::note::{CaptureInput, Note, Rect, StoreError};
use levelnotes::store::NoteStore;

fn tags(v: &[&str]) -> Vec<String> {
    v.iter().map(|s| s.to_string()).collect()
}

fn empty_input() -> CaptureInput {
    CaptureInput {
        text: None,
        html: None,
        source_url: None,
        tags: Vec::new(),
        page_number: None,
        highlights: Vec::new(),
        preview: None,
    }
}

fn text_input(text: &str) -> CaptureInput {
    CaptureInput { text: Some(text.to_string()), ..empty_input() }
}

#[test]
fn create_then_get_returns_captured_fields() {
    let mut store = NoteStore::new();
    let input = CaptureInput {
        text: Some("Hello world".to_string()),
        html: Some("<p>Hello world</p>".to_string()),
        source_url: Some("https://example.org/page".to_string()),
        tags: tags(&["web"]),
        page_number: Some(7),
        highlights: vec![Rect { x: 1, y: 2, w: 3, h: 4 }],
        preview: None,
    };
    let id = "note-1".to_string();
    store.create_with(id.clone(), "2024-05-01T00:00:00+00:00".to_string(), input).unwrap();
    let note = store.get(&id).unwrap();
    assert_eq!(note.id, "note-1");
    assert_eq!(note.created_at, "2024-05-01T00:00:00+00:00");
    assert_eq!(note.title, "Hello world");
    assert_eq!(note.plaintext.as_deref(), Some("Hello world"));
    assert_eq!(note.html.as_deref(), Some("<p>Hello world</p>"));
    assert_eq!(note.source_url.as_deref(), Some("https://example.org/page"));
    assert_eq!(note.text_quote.as_deref(), Some("Hello world"));
    assert_eq!(note.page_number, Some(7));
    assert_eq!(note.highlights, vec![Rect { x: 1, y: 2, w: 3, h: 4 }]);
    assert_eq!(note.preview_path, None);
}

#[test]
fn create_derives_placeholder_title_and_truncates() {
    let mut store = NoteStore::new();
    store.create_with("a".to_string(), "t1".to_string(), empty_input()).unwrap();
    assert_eq!(store.get(&"a".to_string()).unwrap().title, "Untitled clip");

    let long: String = "x".repeat(100);
    store.create_with("b".to_string(), "t2".to_string(), text_input(&long)).unwrap();
    assert_eq!(store.get(&"b".to_string()).unwrap().title, "x".repeat(80));

    store.create_with("c".to_string(), "t3".to_string(), text_input("  padded  ")).unwrap();
    assert_eq!(store.get(&"c".to_string()).unwrap().title, "padded");
}

#[test]
fn example_capture_and_list() {
    let mut store = NoteStore::new();
    let id = "n1".to_string();
    store
        .create_with(id.clone(), "2024-05-01T00:00:00+00:00".to_string(), text_input("Hello world"))
        .unwrap();
    let note = store.get(&id).unwrap();
    assert_eq!(note.title, "Hello world");
    assert_eq!(note.plaintext.as_deref(), Some("Hello world"));
    let listed = store.list_recent();
    assert_eq!(listed.len(), 1);
    assert_eq!(listed[0].id, "n1");
    assert_eq!(listed[0].snippet.as_deref(), Some("Hello world"));
}

#[test]
fn example_append_grows_text_and_tags() {
    let mut store = NoteStore::new();
    let id = "n1".to_string();
    store
        .create_with(id.clone(), "2024-05-01T00:00:00+00:00".to_string(), text_input("Hello world"))
        .unwrap();
    let mut addition = text_input("More info");
    addition.tags = tags(&["ml"]);
    store.append(&id, addition).unwrap();
    let note = store.get(&id).unwrap();
    assert_eq!(note.plaintext.as_deref(), Some("Hello world\n\nMore info"));
    assert_eq!(note.tags, tags(&["ml"]));
    assert_eq!(note.text_quote.as_deref(), Some("Hello world"));
}

#[test]
fn example_update_metadata_unions_tags_sorted() {
    let mut store = NoteStore::new();
    let id = "n1".to_string();
    store
        .create_with(id.clone(), "2024-05-01T00:00:00+00:00".to_string(), text_input("Hello world"))
        .unwrap();
    let mut addition = text_input("More info");
    addition.tags = tags(&["ml"]);
    store.append(&id, addition).unwrap();
    store.update_metadata(&id, None, Some(tags(&["ml", "ai"]))).unwrap();
    let note = store.get(&id).unwrap();
    assert_eq!(note.tags, tags(&["ai", "ml"]));
    assert_eq!(note.title, "Hello world");
}

#[test]
fn update_metadata_replaces_title_only_when_given() {
    let mut store = NoteStore::new();
    let id = "n1".to_string();
    store.create_with(id.clone(), "t".to_string(), text_input("Original")).unwrap();
    store.update_metadata(&id, Some("Renamed".to_string()), None).unwrap();
    let note = store.get(&id).unwrap();
    assert_eq!(note.title, "Renamed");
    assert_eq!(note.tags, tags(&[]));
}

#[test]
fn update_metadata_missing_id_is_not_found() {
    let mut store = NoteStore::new();
    let r = store.update_metadata(&"ghost".to_string(), Some("t".to_string()), None);
    assert_eq!(r, Err(StoreError::NotFound));
}

#[test]
fn append_missing_id_is_not_found() {
    let mut store = NoteStore::new();
    let r = store.append(&"ghost".to_string(), text_input("x"));
    assert_eq!(r, Err(StoreError::NotFound));
}

#[test]
fn append_with_empty_input_changes_nothing_visible() {
    let mut store = NoteStore::new();
    let id = "n1".to_string();
    store.create_with(id.clone(), "t".to_string(), text_input("Keep me")).unwrap();
    store.append(&id, empty_input()).unwrap();
    let note = store.get(&id).unwrap();
    assert_eq!(note.plaintext.as_deref(), Some("Keep me"));
    assert_eq!(note.title, "Keep me");
    assert_eq!(note.tags, tags(&[]));
}

#[test]
fn append_never_mutates_creation_fields() {
    let mut store = NoteStore::new();
    let id = "n1".to_string();
    let input = CaptureInput {
        text: Some("first".to_string()),
        html: None,
        source_url: Some("https://example.org".to_string()),
        tags: Vec::new(),
        page_number: Some(3),
        highlights: vec![Rect { x: 9, y: 9, w: 9, h: 9 }],
        preview: None,
    };
    store.create_with(id.clone(), "t".to_string(), input).unwrap();
    let mut addition = text_input("second");
    addition.source_url = Some("https://other.example".to_string());
    addition.page_number = Some(99);
    addition.highlights = vec![Rect { x: 1, y: 1, w: 1, h: 1 }];
    store.append(&id, addition).unwrap();
    let note = store.get(&id).unwrap();
    assert_eq!(note.source_url.as_deref(), Some("https://example.org"));
    assert_eq!(note.page_number, Some(3));
    assert_eq!(note.highlights, vec![Rect { x: 9, y: 9, w: 9, h: 9 }]);
    assert_eq!(note.text_quote.as_deref(), Some("first"));
    assert_eq!(note.plaintext.as_deref(), Some("first\n\nsecond"));
}

#[test]
fn preview_path_is_first_write_wins() {
    let mut store = NoteStore::new();
    let id = "n1".to_string();
    let mut input = text_input("shot");
    input.preview = Some("previews/n1.png".to_string());
    store.create_with(id.clone(), "t".to_string(), input).unwrap();
    let mut addition = empty_input();
    addition.preview = Some("previews/other.png".to_string());
    store.append(&id, addition).unwrap();
    let note = store.get(&id).unwrap();
    assert_eq!(note.preview_path.as_deref(), Some("previews/n1.png"));
}

#[test]
fn preview_path_set_by_first_successful_append() {
    let mut store = NoteStore::new();
    let id = "n1".to_string();
    store.create_with(id.clone(), "t".to_string(), text_input("shot")).unwrap();
    let mut addition = empty_input();
    addition.preview = Some("previews/late.png".to_string());
    store.append(&id, addition).unwrap();
    let note = store.get(&id).unwrap();
    assert_eq!(note.preview_path.as_deref(), Some("previews/late.png"));
}

#[test]
fn delete_then_get_and_search_miss() {
    let mut store = NoteStore::new();
    let id = "n1".to_string();
    store.create_with(id.clone(), "t".to_string(), text_input("unique sentinel phrase")).unwrap();
    assert_eq!(store.delete(&id), 1);
    assert!(store.get(&id).is_none());
    let hits = store.search(&"sentinel".to_string());
    assert!(hits.is_empty());
}

#[test]
fn example_delete_unknown_id_affects_nothing() {
    let mut store = NoteStore::new();
    store.create_with("kept".to_string(), "t".to_string(), text_input("stay")).unwrap();
    assert_eq!(store.delete(&"never-created".to_string()), 0);
    assert_eq!(store.list_recent().len(), 1);
}

#[test]
fn example_search_without_match_is_empty() {
    let mut store = NoteStore::new();
    store.create_with("a".to_string(), "t1".to_string(), text_input("the quick brown fox")).unwrap();
    store.create_with("b".to_string(), "t2".to_string(), text_input("lorem ipsum dolor")).unwrap();
    let hits = store.search(&"nonexistent-term".to_string());
    assert!(hits.is_empty());
}

#[test]
fn search_is_case_insensitive() {
    let mut store = NoteStore::new();
    store.create_with("a".to_string(), "t1".to_string(), text_input("Hello World")).unwrap();
    let hits = store.search(&"hello".to_string());
    assert_eq!(hits.len(), 1);
    assert_eq!(hits[0].id, "a");
}

#[test]
fn search_finds_tags_and_title() {
    let mut store = NoteStore::new();
    let mut input = text_input("body text");
    input.tags = tags(&["MachineLearning"]);
    store.create_with("a".to_string(), "t1".to_string(), input).unwrap();
    store.create_with("b".to_string(), "t2".to_string(), text_input("other note")).unwrap();
    let by_tag = store.search(&"machinelearning".to_string());
    assert_eq!(by_tag.len(), 1);
    assert_eq!(by_tag[0].id, "a");
    let by_text = store.search(&" body ".to_string());
    assert_eq!(by_text.len(), 1);
    assert_eq!(by_text[0].id, "a");
}

#[test]
fn blank_search_lists_newest_first() {
    let mut store = NoteStore::new();
    store.create_with("old".to_string(), "2024-01-01T00:00:00+00:00".to_string(), text_input("one")).unwrap();
    store.create_with("new".to_string(), "2024-02-01T00:00:00+00:00".to_string(), text_input("two")).unwrap();
    let hits = store.search(&"   ".to_string());
    assert_eq!(hits.len(), 2);
    assert_eq!(hits[0].id, "new");
    assert_eq!(hits[1].id, "old");
}

#[test]
fn list_orders_by_creation_stamp_descending() {
    let mut store = NoteStore::new();
    store.create_with("b".to_string(), "2024-02-01T00:00:00+00:00".to_string(), text_input("mid")).unwrap();
    store.create_with("c".to_string(), "2024-03-01T00:00:00+00:00".to_string(), text_input("newest")).unwrap();
    store.create_with("a".to_string(), "2024-01-01T00:00:00+00:00".to_string(), text_input("oldest")).unwrap();
    let listed = store.list_recent();
    let ids: Vec<&str> = listed.iter().map(|s| s.id.as_str()).collect();
    assert_eq!(ids, vec!["c", "b", "a"]);
}

#[test]
fn list_snippet_truncates_with_ellipsis() {
    let mut store = NoteStore::new();
    let long: String = "b".repeat(200);
    store.create_with("a".to_string(), "t".to_string(), text_input(&long)).unwrap();
    let listed = store.list_recent();
    let mut expected = "b".repeat(160);
    expected.push('…');
    assert_eq!(listed[0].snippet.as_deref(), Some(expected.as_str()));
}

#[test]
fn duplicate_id_is_a_collision_and_changes_nothing() {
    let mut store = NoteStore::new();
    store.create_with("a".to_string(), "t1".to_string(), text_input("first")).unwrap();
    let r = store.create_with("a".to_string(), "t2".to_string(), text_input("second"));
    assert_eq!(r, Err(StoreError::IdCollision));
    assert_eq!(store.get(&"a".to_string()).unwrap().plaintext.as_deref(), Some("first"));
}

#[test]
fn create_draws_fresh_id_and_stamp() {
    let mut store = NoteStore::new();
    let id = store.create(text_input("drawn")).unwrap();
    assert_eq!(id.chars().count(), 36);
    let note = store.get(&id).unwrap();
    assert_eq!(note.plaintext.as_deref(), Some("drawn"));
    assert!(!note.created_at.is_empty());
}

#[test]
fn detail_returns_record_or_sentinel() {
    let mut store = NoteStore::new();
    let mut input = text_input("content");
    input.tags = tags(&["t"]);
    store.create_with("a".to_string(), "t1".to_string(), input).unwrap();
    let found = store.detail(&"a".to_string());
    assert_eq!(found.id, "a");
    assert_eq!(found.plaintext.as_deref(), Some("content"));
    assert_eq!(found.tags, tags(&["t"]));

    let missing = store.detail(&"nope".to_string());
    assert_eq!(missing.id, "not-found");
    assert_eq!(missing.title, "Not found");
    assert_eq!(missing.created_at, "");
    assert!(missing.plaintext.is_none());
    assert!(missing.tags.is_empty());
    assert!(missing.highlights.is_empty());
}

#[test]
fn export_carries_document_fields() {
    let mut store = NoteStore::new();
    let mut input = text_input("body");
    input.html = Some("<b>body</b>".to_string());
    input.source_url = Some("https://example.org".to_string());
    input.tags = tags(&["ml"]);
    store.create_with("a".to_string(), "2024-05-01T00:00:00+00:00".to_string(), input).unwrap();
    let record = store.export(&"a".to_string());
    assert_eq!(record.title, "body");
    assert_eq!(record.created_at, "2024-05-01T00:00:00+00:00");
    assert_eq!(record.source_url.as_deref(), Some("https://example.org"));
    assert_eq!(record.tags, tags(&["ml"]));
    assert_eq!(record.plaintext.as_deref(), Some("body"));
    assert_eq!(record.html.as_deref(), Some("<b>body</b>"));

    let missing = store.export(&"nope".to_string());
    assert_eq!(missing.title, "Not found");
    assert_eq!(missing.created_at, "");
    assert!(missing.plaintext.is_none());
}

#[test]
fn update_metadata_with_empty_title_applies_it() {
    let mut store = NoteStore::new();
    let id = "n1".to_string();
    store.create_with(id.clone(), "t".to_string(), text_input("Original")).unwrap();
    store.update_metadata(&id, Some(String::new()), None).unwrap();
    assert_eq!(store.get(&id).unwrap().title, "");
}

#[test]
fn append_onto_textless_note_takes_the_addition() {
    let mut store = NoteStore::new();
    let id = "n1".to_string();
    store.create_with(id.clone(), "t".to_string(), empty_input()).unwrap();
    store.append(&id, text_input("first words")).unwrap();
    let note = store.get(&id).unwrap();
    assert_eq!(note.plaintext.as_deref(), Some("first words"));
    assert_eq!(note.title, "Untitled clip");
    assert_eq!(note.text_quote, None);
}

#[test]
fn search_results_keep_newest_first_order() {
    let mut store = NoteStore::new();
    store.create_with("old".to_string(), "2024-01-01T00:00:00+00:00".to_string(), text_input("shared marker alpha")).unwrap();
    store.create_with("new".to_string(), "2024-02-01T00:00:00+00:00".to_string(), text_input("shared marker beta")).unwrap();
    store.create_with("other".to_string(), "2024-03-01T00:00:00+00:00".to_string(), text_input("unrelated")).unwrap();
    let hits = store.search(&"shared marker".to_string());
    let ids: Vec<&str> = hits.iter().map(|s| s.id.as_str()).collect();
    assert_eq!(ids, vec!["new", "old"]);
}

#[test]
fn tags_reachable_through_search_after_update() {
    let mut store = NoteStore::new();
    let id = "n1".to_string();
    store.create_with(id.clone(), "t".to_string(), text_input("plain body")).unwrap();
    assert!(store.search(&"projectx".to_string()).is_empty());
    store.update_metadata(&id, None, Some(tags(&["ProjectX"]))).unwrap();
    let hits = store.search(&"projectx".to_string());
    assert_eq!(hits.len(), 1);
    assert_eq!(hits[0].tags, tags(&["ProjectX"]));
}

#[test]
fn restore_reinserts_stored_note_verbatim() {
    let mut store = NoteStore::new();
    let note = Note {
        id: "n1".to_string(),
        created_at: "2024-05-01T00:00:00+00:00".to_string(),
        title: "A renamed title".to_string(),
        plaintext: Some("first\n\nsecond".to_string()),
        html: None,
        source_url: Some("https://example.org".to_string()),
        text_quote: Some("first".to_string()),
        preview_path: Some("previews/n1.png".to_string()),
        tags: tags(&["ai", "ml"]),
        page_number: Some(2),
        highlights: vec![Rect { x: 5, y: 6, w: 7, h: 8 }],
    };
    store.restore(note).unwrap();
    let back = store.get(&"n1".to_string()).unwrap();
    assert_eq!(back.title, "A renamed title");
    assert_eq!(back.plaintext.as_deref(), Some("first\n\nsecond"));
    assert_eq!(back.text_quote.as_deref(), Some("first"));
    assert_eq!(back.preview_path.as_deref(), Some("previews/n1.png"));
    assert_eq!(back.tags, tags(&["ai", "ml"]));
    assert_eq!(back.page_number, Some(2));
    assert_eq!(back.highlights, vec![Rect { x: 5, y: 6, w: 7, h: 8 }]);
}

#[test]
fn restore_on_live_id_is_a_collision() {
    let mut store = NoteStore::new();
    store.create_with("n1".to_string(), "t".to_string(), text_input("keep")).unwrap();
    let note = Note {
        id: "n1".to_string(),
        created_at: "t2".to_string(),
        title: "other".to_string(),
        plaintext: None,
        html: None,
        source_url: None,
        text_quote: None,
        preview_path: None,
        tags: tags(&[]),
        page_number: None,
        highlights: Vec::new(),
    };
    assert_eq!(store.restore(note), Err(StoreError::IdCollision));
    assert_eq!(store.get(&"n1".to_string()).unwrap().plaintext.as_deref(), Some("keep"));
}

#[test]
fn trimming_covers_unicode_whitespace() {
    let mut store = NoteStore::new();
    store
        .create_with("a".to_string(), "t".to_string(), text_input("\u{00A0}padded\u{2003}"))
        .unwrap();
    assert_eq!(store.get(&"a".to_string()).unwrap().title, "padded");
}
