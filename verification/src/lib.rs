//! Sticky-notes persistence and window-session lifecycle.
//!
//! The crate models the note store (CRUD with partial-update semantics and
//! key/value settings) and the window lifecycle manager (at most one live
//! surface per note id, session restore from persisted open flags).

pub mod errors;
pub mod models;
pub mod session;
pub mod db;
pub mod surfaces;

pub use errors::StoreError;
pub use models::Note;
pub use models::FieldChange;
pub use models::NoteUpdate;
pub use models::Setting;
pub use db::Database;
pub use surfaces::OpenAction;
pub use surfaces::SurfaceConfig;
pub use surfaces::Surfaces;
pub use surfaces::note_label;
pub use session::notes_to_restore;
pub use session::restore_session;
