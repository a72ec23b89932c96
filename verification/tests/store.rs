use stickynotes::FieldChange;
use stickynotes::Note;
use stickynotes::NoteUpdate;
use stickynotes::Setting;
use stickynotes::Database;
use stickynotes::StoreError;

fn patch() -> NoteUpdate {
    NoteUpdate::empty()
}

fn note(id: &str, updated_at: u64) -> Note {
    Note {
        id: id.to_string(),
        title: String::new(),
        content: String::new(),
        color: "yellow".to_string(),
        pos_x: 0,
        pos_y: 0,
        width: 0,
        height: 0,
        is_open: false,
        pinned: false,
        created_at: updated_at,
        updated_at,
    }
}

#[test]
fn created_note_has_requested_color_and_defaults() {
    let mut store = Database::new();
    let n = store.create_note(Some("blue".to_string()), 100).unwrap();
    assert_eq!(n.color, "blue");
    assert!(!n.is_open);
    assert!(!n.pinned);
    assert_eq!(n.title, "");
    assert_eq!(n.content, "");
    assert_eq!(n.pos_x, 0);
    assert_eq!(n.pos_y, 0);
    assert_eq!(n.width, 0);
    assert_eq!(n.height, 0);
    assert_eq!(n.created_at, 100);
    assert_eq!(n.updated_at, 100);
    let read = store.get_note(&n.id).unwrap();
    assert_eq!(read.id, n.id);
    assert_eq!(read.color, "blue");
    assert!(!read.is_open);
    assert!(!read.pinned);
}

#[test]
fn created_note_without_color_gets_yellow() {
    let mut store = Database::new();
    let n = store.create_note(None, 7).unwrap();
    assert_eq!(n.color, "yellow");
    let read = store.get_note(&n.id).unwrap();
    assert_eq!(read.color, "yellow");
}

#[test]
fn created_note_id_is_hyphenated_uuid_length() {
    let mut store = Database::new();
    let n = store.create_note(None, 1).unwrap();
    assert_eq!(n.id.len(), 36);
}

#[test]
fn two_created_notes_get_distinct_ids() {
    let mut store = Database::new();
    let a = store.create_note(None, 1).unwrap();
    let b = store.create_note(None, 2).unwrap();
    assert_ne!(a.id, b.id);
}

#[test]
fn create_with_existing_id_is_storage_failure() {
    let mut store = Database::new();
    store.create_note_with_id("fixed".to_string(), None, 1).unwrap();
    let err = store.create_note_with_id("fixed".to_string(), None, 2).unwrap_err();
    assert_eq!(err, StoreError::StorageFailure);
}

#[test]
fn empty_patch_returns_row_unchanged() {
    let mut store = Database::new();
    let n = store.create_note(Some("green".to_string()), 50).unwrap();
    let same = store.update_note(&n.id, patch(), 999).unwrap();
    assert_eq!(same.id, n.id);
    assert_eq!(same.title, n.title);
    assert_eq!(same.content, n.content);
    assert_eq!(same.color, n.color);
    assert_eq!(same.pos_x, n.pos_x);
    assert_eq!(same.pos_y, n.pos_y);
    assert_eq!(same.width, n.width);
    assert_eq!(same.height, n.height);
    assert_eq!(same.is_open, n.is_open);
    assert_eq!(same.pinned, n.pinned);
    assert_eq!(same.created_at, n.created_at);
    assert_eq!(same.updated_at, 50);
}

#[test]
fn title_patch_changes_only_title_and_updated_at() {
    let mut store = Database::new();
    let n = store.create_note(None, 50).unwrap();
    let mut p = patch();
    p.title = Some("X".to_string());
    let changed = store.update_note(&n.id, p, 200).unwrap();
    assert_eq!(changed.title, "X");
    assert_eq!(changed.updated_at, 200);
    assert_eq!(changed.id, n.id);
    assert_eq!(changed.content, n.content);
    assert_eq!(changed.color, n.color);
    assert_eq!(changed.pos_x, n.pos_x);
    assert_eq!(changed.pos_y, n.pos_y);
    assert_eq!(changed.width, n.width);
    assert_eq!(changed.height, n.height);
    assert_eq!(changed.is_open, n.is_open);
    assert_eq!(changed.pinned, n.pinned);
    assert_eq!(changed.created_at, n.created_at);
}

#[test]
fn full_patch_applies_every_field() {
    let mut store = Database::new();
    let n = store.create_note(None, 1).unwrap();
    let p = NoteUpdate {
        title: Some("t".to_string()),
        content: Some("c".to_string()),
        color: Some("pink".to_string()),
        pos_x: Some(10),
        pos_y: Some(20),
        width: Some(300),
        height: Some(400),
        is_open: Some(true),
        pinned: Some(true),
    };
    let changed = store.update_note(&n.id, p, 2).unwrap();
    assert_eq!(changed.title, "t");
    assert_eq!(changed.content, "c");
    assert_eq!(changed.color, "pink");
    assert_eq!(changed.pos_x, 10);
    assert_eq!(changed.pos_y, 20);
    assert_eq!(changed.width, 300);
    assert_eq!(changed.height, 400);
    assert!(changed.is_open);
    assert!(changed.pinned);
    assert_eq!(changed.created_at, 1);
    assert_eq!(changed.updated_at, 2);
}

#[test]
fn update_unknown_id_is_not_found() {
    let mut store = Database::new();
    let err = store.update_note(&"missing".to_string(), patch(), 1).unwrap_err();
    assert_eq!(err, StoreError::NotFound);
}

#[test]
fn delete_unknown_id_succeeds() {
    let mut store = Database::new();
    assert!(store.delete_note(&"nobody".to_string()).is_ok());
}

#[test]
fn delete_removes_the_row() {
    let mut store = Database::new();
    let n = store.create_note(None, 1).unwrap();
    store.delete_note(&n.id).unwrap();
    let err = store.get_note(&n.id).unwrap_err();
    assert_eq!(err, StoreError::NotFound);
}

#[test]
fn get_unknown_id_is_not_found() {
    let store = Database::new();
    let err = store.get_note(&"absent".to_string()).unwrap_err();
    assert_eq!(err, StoreError::NotFound);
}

#[test]
fn list_orders_by_updated_at_descending() {
    let mut store = Database::new();
    let a = store.create_note(None, 1).unwrap();
    let b = store.create_note(None, 2).unwrap();
    let c = store.create_note(None, 3).unwrap();
    let all = store.get_all_notes();
    assert_eq!(all.len(), 3);
    assert_eq!(all[0].id, c.id);
    assert_eq!(all[1].id, b.id);
    assert_eq!(all[2].id, a.id);
}

#[test]
fn updating_moves_a_note_to_the_front() {
    let mut store = Database::new();
    let a = store.create_note(None, 1).unwrap();
    let b = store.create_note(None, 2).unwrap();
    let mut p = patch();
    p.title = Some("bump".to_string());
    store.update_note(&a.id, p, 9).unwrap();
    let all = store.get_all_notes();
    assert_eq!(all[0].id, a.id);
    assert_eq!(all[1].id, b.id);
}

#[test]
fn setting_upsert_creates_then_overwrites() {
    let mut store = Database::new();
    let key = "theme".to_string();
    store.set_setting(&key, &"dark".to_string()).unwrap();
    assert_eq!(store.get_setting(&key).unwrap(), "dark");
    store.set_setting(&key, &"light".to_string()).unwrap();
    assert_eq!(store.get_setting(&key).unwrap(), "light");
    let all = store.get_all_settings();
    assert_eq!(all.len(), 1);
    assert_eq!(all[0].key, "theme");
    assert_eq!(all[0].value, "light");
}

#[test]
fn get_unknown_setting_is_not_found() {
    let store = Database::new();
    let err = store.get_setting(&"absent".to_string()).unwrap_err();
    assert_eq!(err, StoreError::NotFound);
}

#[test]
fn init_accepts_unique_rows() {
    let notes = vec![note("a", 1), note("b", 2)];
    let settings = vec![Setting { key: "k".to_string(), value: "v".to_string() }];
    let store = Database::init(notes, settings).unwrap();
    assert_eq!(store.get_note(&"a".to_string()).unwrap().id, "a");
    assert_eq!(store.get_setting(&"k".to_string()).unwrap(), "v");
}

#[test]
fn init_rejects_duplicate_note_ids() {
    let notes = vec![note("a", 1), note("a", 2)];
    let err = Database::init(notes, Vec::new()).unwrap_err();
    assert_eq!(err, StoreError::InitializationFailure);
}

#[test]
fn init_rejects_duplicate_setting_keys() {
    let settings = vec![
        Setting { key: "k".to_string(), value: "1".to_string() },
        Setting { key: "k".to_string(), value: "2".to_string() },
    ];
    let err = Database::init(Vec::new(), settings).unwrap_err();
    assert_eq!(err, StoreError::InitializationFailure);
}

#[test]
fn field_changes_lists_present_fields_in_column_order() {
    let mut p = patch();
    p.title = Some("T".to_string());
    p.pinned = Some(true);
    let changes = p.field_changes();
    assert_eq!(changes.len(), 2);
    assert!(matches!(&changes[0], FieldChange::Title(t) if t == "T"));
    assert!(matches!(&changes[1], FieldChange::Pinned(true)));
}

#[test]
fn field_changes_of_empty_patch_is_empty() {
    assert!(patch().field_changes().is_empty());
}

#[test]
fn error_messages_describe_each_failure() {
    assert_eq!(StoreError::NotFound.message(), "no matching row");
    assert_eq!(StoreError::StorageFailure.message(), "storage failure");
    assert_eq!(StoreError::InitializationFailure.message(), "initialization failure");
    assert_eq!(StoreError::SurfaceFailure.message(), "window surface failure");
}

#[test]
fn listing_is_deterministic_with_tied_update_times() {
    let mut store = Database::new();
    store.create_note_with_id("a".to_string(), None, 5).unwrap();
    store.create_note_with_id("b".to_string(), None, 5).unwrap();
    store.create_note_with_id("c".to_string(), None, 5).unwrap();
    let first: Vec<String> = store.get_all_notes().into_iter().map(|n| n.id).collect();
    let second: Vec<String> = store.get_all_notes().into_iter().map(|n| n.id).collect();
    assert_eq!(first, second);
    // Notes updated at the same time keep their storage order.
    assert_eq!(first, vec!["a".to_string(), "b".to_string(), "c".to_string()]);
}
