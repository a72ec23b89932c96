use stickynotes::note_label;
use stickynotes::notes_to_restore;
use stickynotes::restore_session;
use stickynotes::Note;
use stickynotes::NoteUpdate;
use stickynotes::OpenAction;
use stickynotes::Database;
use stickynotes::Surfaces;

fn open_note(updated_at: u64, id: &str) -> Note {
    Note {
        id: id.to_string(),
        title: String::new(),
        content: String::new(),
        color: "yellow".to_string(),
        pos_x: 0,
        pos_y: 0,
        width: 0,
        height: 0,
        is_open: true,
        pinned: false,
        created_at: updated_at,
        updated_at,
    }
}

#[test]
fn second_open_focuses_the_single_surface() {
    let mut store = Database::new();
    let note = store.create_note(None, 1).unwrap();
    let mut surfaces = Surfaces::new();
    assert!(matches!(surfaces.open_note_window(&note), OpenAction::Created(_)));
    assert!(matches!(surfaces.open_note_window(&note), OpenAction::Focused));
    surfaces.close_note_window(&note.id);
    // One close suffices to make the next open create again: there was
    // exactly one surface for the note.
    assert!(matches!(surfaces.open_note_window(&note), OpenAction::Created(_)));
}

#[test]
fn pinned_blue_note_surface_configuration() {
    let mut store = Database::new();
    let created = store.create_note(Some("blue".to_string()), 10).unwrap();
    let mut p = NoteUpdate::empty();
    p.pinned = Some(true);
    p.pos_x = Some(40);
    p.pos_y = Some(50);
    p.width = Some(240);
    p.height = Some(180);
    p.title = Some("shopping".to_string());
    let note = store.update_note(&created.id, p, 11).unwrap();
    let mut surfaces = Surfaces::new();
    match surfaces.open_note_window(&note) {
        OpenAction::Created(c) => {
            assert!(!c.decorations);
            assert!(c.transparent);
            assert!(c.skip_taskbar);
            assert!(c.always_on_top);
            assert!(!c.centered);
            assert!(c.resizable);
            assert_eq!(c.title, "shopping");
            assert_eq!(c.pos_x, 40);
            assert_eq!(c.pos_y, 50);
            assert_eq!(c.width, 240);
            assert_eq!(c.height, 180);
            assert_eq!(c.min_width, 0);
            assert_eq!(c.min_height, 0);
        }
        OpenAction::Focused => panic!("a fresh registry cannot focus"),
    }
}

#[test]
fn unpinned_note_surface_stays_in_normal_stacking() {
    let mut store = Database::new();
    let note = store.create_note(None, 1).unwrap();
    let mut surfaces = Surfaces::new();
    match surfaces.open_note_window(&note) {
        OpenAction::Created(c) => assert!(!c.always_on_top),
        OpenAction::Focused => panic!("a fresh registry cannot focus"),
    }
}

#[test]
fn close_without_surface_is_a_noop() {
    let mut surfaces = Surfaces::new();
    surfaces.close_note_window(&"ghost".to_string());
    let mut store = Database::new();
    let note = store.create_note(None, 1).unwrap();
    assert!(matches!(surfaces.open_note_window(&note), OpenAction::Created(_)));
}

#[test]
fn manager_window_is_a_centered_decorated_singleton() {
    let mut surfaces = Surfaces::new();
    match surfaces.open_manager_window() {
        OpenAction::Created(c) => {
            assert_eq!(c.title, "StickyNotes — Manager");
            assert_eq!(c.width, 520);
            assert_eq!(c.height, 600);
            assert_eq!(c.min_width, 400);
            assert_eq!(c.min_height, 400);
            assert!(c.centered);
            assert!(c.decorations);
            assert!(!c.transparent);
            assert!(!c.skip_taskbar);
            assert!(!c.always_on_top);
            assert!(c.resizable);
        }
        OpenAction::Focused => panic!("a fresh registry cannot focus"),
    }
    assert!(matches!(surfaces.open_manager_window(), OpenAction::Focused));
}

#[test]
fn settings_window_is_a_fixed_size_singleton() {
    let mut surfaces = Surfaces::new();
    match surfaces.open_settings_window() {
        OpenAction::Created(c) => {
            assert_eq!(c.title, "StickyNotes — Settings");
            assert_eq!(c.width, 450);
            assert_eq!(c.height, 500);
            assert_eq!(c.min_width, 0);
            assert_eq!(c.min_height, 0);
            assert!(c.centered);
            assert!(c.decorations);
            assert!(!c.resizable);
        }
        OpenAction::Focused => panic!("a fresh registry cannot focus"),
    }
    assert!(matches!(surfaces.open_settings_window(), OpenAction::Focused));
}

#[test]
fn second_launch_redirects_to_the_manager() {
    let mut surfaces = Surfaces::new();
    assert!(matches!(surfaces.handle_second_launch(), OpenAction::Created(_)));
    assert!(matches!(surfaces.handle_second_launch(), OpenAction::Focused));
}

#[test]
fn restore_opens_exactly_the_notes_flagged_open() {
    let mut closed = open_note(2, "closed");
    closed.is_open = false;
    let notes = vec![open_note(1, "first"), closed, open_note(3, "second")];
    let mut surfaces = Surfaces::new();
    restore_session(&mut surfaces, &notes);
    // Both open notes got their one surface: asking again only focuses.
    assert!(matches!(surfaces.open_note_window(&notes[0]), OpenAction::Focused));
    assert!(matches!(surfaces.open_note_window(&notes[2]), OpenAction::Focused));
    // The note that was not flagged open got none.
    assert!(matches!(surfaces.open_note_window(&notes[1]), OpenAction::Created(_)));
}

#[test]
fn restore_is_idempotent_for_the_registry() {
    let notes = vec![open_note(1, "a"), open_note(2, "b")];
    let mut surfaces = Surfaces::new();
    restore_session(&mut surfaces, &notes);
    restore_session(&mut surfaces, &notes);
    assert!(matches!(surfaces.open_note_window(&notes[0]), OpenAction::Focused));
    assert!(matches!(surfaces.open_note_window(&notes[1]), OpenAction::Focused));
}

#[test]
fn notes_to_restore_keeps_open_notes_in_storage_order() {
    let mut closed = open_note(5, "x");
    closed.is_open = false;
    let notes = vec![open_note(1, "a"), closed, open_note(2, "b")];
    let restore = notes_to_restore(&notes);
    assert_eq!(restore.len(), 2);
    assert_eq!(restore[0].id, "a");
    assert_eq!(restore[1].id, "b");
}

#[test]
fn note_label_prefixes_the_id() {
    assert_eq!(note_label(&"abc".to_string()), "note-abc");
}
