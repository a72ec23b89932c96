//! Entity model: notes, sparse note patches, and key/value settings.

use vstd::prelude::*;

verus! {

/// Mathematical value of a [`Note`]: each string is seen as its character
/// sequence, every other field as itself.
pub struct NoteView {
    pub id: Seq<char>,
    pub title: Seq<char>,
    pub content: Seq<char>,
    pub color: Seq<char>,
    pub pos_x: u32,
    pub pos_y: u32,
    pub width: u32,
    pub height: u32,
    pub is_open: bool,
    pub pinned: bool,
    pub created_at: u64,
    pub updated_at: u64,
}

/// A persisted sticky note.
///
/// `id` is an opaque unique string chosen at creation and never changed.
/// Geometry is in screen pixels; timestamps are seconds and are assigned by
/// the store, `updated_at` being refreshed on every successful mutation.
/// `is_open` records whether a window should exist for the note; `pinned`
/// asks for that window to stay above all others.
#[derive(Debug)]
pub struct Note {
    pub id: String,
    pub title: String,
    pub content: String,
    pub color: String,
    pub pos_x: u32,
    pub pos_y: u32,
    pub width: u32,
    pub height: u32,
    pub is_open: bool,
    pub pinned: bool,
    pub created_at: u64,
    pub updated_at: u64,
}

impl View for Note {
    type V = NoteView;

    open spec fn view(&self) -> NoteView {
        NoteView {
            id: self.id@,
            title: self.title@,
            content: self.content@,
            color: self.color@,
            pos_x: self.pos_x,
            pos_y: self.pos_y,
            width: self.width,
            height: self.height,
            is_open: self.is_open,
            pinned: self.pinned,
            created_at: self.created_at,
            updated_at: self.updated_at,
        }
    }
}

impl Clone for Note {
    /// Field-for-field copy, equal in view to the value cloned.
    fn clone(&self) -> (r: Self)
        ensures
            r@ == self@,
    {
        Note {
            id: self.id.clone(),
            title: self.title.clone(),
            content: self.content.clone(),
            color: self.color.clone(),
            pos_x: self.pos_x,
            pos_y: self.pos_y,
            width: self.width,
            height: self.height,
            is_open: self.is_open,
            pinned: self.pinned,
            created_at: self.created_at,
            updated_at: self.updated_at,
        }
    }
}

/// The character sequence behind an optional string.
pub open spec fn opt_view(o: Option<String>) -> Option<Seq<char>> {
    match o {
        Option::Some(s) => Option::Some(s@),
        Option::None => Option::None,
    }
}

/// Mathematical value of a [`NoteUpdate`].
pub struct NoteUpdateView {
    pub title: Option<Seq<char>>,
    pub content: Option<Seq<char>>,
    pub color: Option<Seq<char>>,
    pub pos_x: Option<u32>,
    pub pos_y: Option<u32>,
    pub width: Option<u32>,
    pub height: Option<u32>,
    pub is_open: Option<bool>,
    pub pinned: Option<bool>,
}

impl NoteUpdateView {
    /// A patch with no present field: applying it changes nothing.
    pub open spec fn is_empty(self) -> bool {
        &&& self.title is None
        &&& self.content is None
        &&& self.color is None
        &&& self.pos_x is None
        &&& self.pos_y is None
        &&& self.width is None
        &&& self.height is None
        &&& self.is_open is None
        &&& self.pinned is None
    }
}

/// A sparse patch for a note: only present fields are applied, absent fields
/// leave the note untouched.
#[derive(Debug)]
pub struct NoteUpdate {
    pub title: Option<String>,
    pub content: Option<String>,
    pub color: Option<String>,
    pub pos_x: Option<u32>,
    pub pos_y: Option<u32>,
    pub width: Option<u32>,
    pub height: Option<u32>,
    pub is_open: Option<bool>,
    pub pinned: Option<bool>,
}

impl View for NoteUpdate {
    type V = NoteUpdateView;

    open spec fn view(&self) -> NoteUpdateView {
        NoteUpdateView {
            title: opt_view(self.title),
            content: opt_view(self.content),
            color: opt_view(self.color),
            pos_x: self.pos_x,
            pos_y: self.pos_y,
            width: self.width,
            height: self.height,
            is_open: self.is_open,
            pinned: self.pinned,
        }
    }
}

impl NoteUpdate {
    /// The patch with every field absent.
    pub fn empty() -> (r: NoteUpdate)
        ensures
            r@.is_empty(),
    {
        NoteUpdate {
            title: None,
            content: None,
            color: None,
            pos_x: None,
            pos_y: None,
            width: None,
            height: None,
            is_open: None,
            pinned: None,
        }
    }
}

/// The note that results from applying patch `u` to note `n` at time `now`:
/// present fields replace the note's, absent fields are kept, and
/// `updated_at` is refreshed exactly when at least one field is present.
pub open spec fn apply_update(n: NoteView, u: NoteUpdateView, now: u64) -> NoteView {
    NoteView {
        id: n.id,
        title: if u.title is Some { u.title->0 } else { n.title },
        content: if u.content is Some { u.content->0 } else { n.content },
        color: if u.color is Some { u.color->0 } else { n.color },
        pos_x: if u.pos_x is Some { u.pos_x->0 } else { n.pos_x },
        pos_y: if u.pos_y is Some { u.pos_y->0 } else { n.pos_y },
        width: if u.width is Some { u.width->0 } else { n.width },
        height: if u.height is Some { u.height->0 } else { n.height },
        is_open: if u.is_open is Some { u.is_open->0 } else { n.is_open },
        pinned: if u.pinned is Some { u.pinned->0 } else { n.pinned },
        created_at: n.created_at,
        updated_at: if u.is_empty() { n.updated_at } else { now },
    }
}

/// Applying an empty patch returns the note unchanged, `updated_at` included.
pub proof fn lemma_empty_update_is_noop(n: NoteView, u: NoteUpdateView, now: u64)
    requires
        u.is_empty(),
    ensures
        apply_update(n, u, now) == n,
{
}

/// A patch that only carries a title changes exactly `title` and
/// `updated_at`; every other field of the note is kept as it was.
pub proof fn lemma_title_update_touches_title_only(
    n: NoteView,
    u: NoteUpdateView,
    now: u64,
)
    requires
        u.title is Some,
        u.content is None,
        u.color is None,
        u.pos_x is None,
        u.pos_y is None,
        u.width is None,
        u.height is None,
        u.is_open is None,
        u.pinned is None,
    ensures
        apply_update(n, u, now).title == u.title->0,
        apply_update(n, u, now).updated_at == now,
        apply_update(n, u, now).id == n.id,
        apply_update(n, u, now).content == n.content,
        apply_update(n, u, now).color == n.color,
        apply_update(n, u, now).pos_x == n.pos_x,
        apply_update(n, u, now).pos_y == n.pos_y,
        apply_update(n, u, now).width == n.width,
        apply_update(n, u, now).height == n.height,
        apply_update(n, u, now).is_open == n.is_open,
        apply_update(n, u, now).pinned == n.pinned,
        apply_update(n, u, now).created_at == n.created_at,
{
}

/// Mathematical value of a [`FieldChange`].
pub enum FieldChangeView {
    Title(Seq<char>),
    Content(Seq<char>),
    Color(Seq<char>),
    PosX(u32),
    PosY(u32),
    Width(u32),
    Height(u32),
    IsOpen(bool),
    Pinned(bool),
}

/// One note column together with the value a patch assigns to it. A patch
/// becomes an ordered list of these, the exact mutation the durable medium
/// has to apply as one parameterized statement.
#[derive(Debug)]
pub enum FieldChange {
    Title(String),
    Content(String),
    Color(String),
    PosX(u32),
    PosY(u32),
    Width(u32),
    Height(u32),
    IsOpen(bool),
    Pinned(bool),
}

impl View for FieldChange {
    type V = FieldChangeView;

    open spec fn view(&self) -> FieldChangeView {
        match self {
            FieldChange::Title(s) => FieldChangeView::Title(s@),
            FieldChange::Content(s) => FieldChangeView::Content(s@),
            FieldChange::Color(s) => FieldChangeView::Color(s@),
            FieldChange::PosX(v) => FieldChangeView::PosX(*v),
            FieldChange::PosY(v) => FieldChangeView::PosY(*v),
            FieldChange::Width(v) => FieldChangeView::Width(*v),
            FieldChange::Height(v) => FieldChangeView::Height(*v),
            FieldChange::IsOpen(v) => FieldChangeView::IsOpen(*v),
            FieldChange::Pinned(v) => FieldChangeView::Pinned(*v),
        }
    }
}

/// The views of a sequence of field changes.
pub open spec fn field_change_views(s: Seq<FieldChange>) -> Seq<FieldChangeView> {
    s.map_values(|c: FieldChange| c@)
}

/// The ordered column/value pairs that a patch assigns: one entry per
/// present field, in the fixed column order of the note row.
pub open spec fn field_changes_of(u: NoteUpdateView) -> Seq<FieldChangeView> {
    let s = Seq::<FieldChangeView>::empty();
    let s = if u.title is Some { s.push(FieldChangeView::Title(u.title->0)) } else { s };
    let s = if u.content is Some { s.push(FieldChangeView::Content(u.content->0)) } else { s };
    let s = if u.color is Some { s.push(FieldChangeView::Color(u.color->0)) } else { s };
    let s = if u.pos_x is Some { s.push(FieldChangeView::PosX(u.pos_x->0)) } else { s };
    let s = if u.pos_y is Some { s.push(FieldChangeView::PosY(u.pos_y->0)) } else { s };
    let s = if u.width is Some { s.push(FieldChangeView::Width(u.width->0)) } else { s };
    let s = if u.height is Some { s.push(FieldChangeView::Height(u.height->0)) } else { s };
    let s = if u.is_open is Some { s.push(FieldChangeView::IsOpen(u.is_open->0)) } else { s };
    let s = if u.pinned is Some { s.push(FieldChangeView::Pinned(u.pinned->0)) } else { s };
    s
}

proof fn lemma_field_change_views_push(s: Seq<FieldChange>, c: FieldChange)
    ensures
        field_change_views(s.push(c)) == field_change_views(s).push(c@),
{
    assert(field_change_views(s.push(c)) =~= field_change_views(s).push(c@));
}

impl NoteUpdate {
    /// The mutation this patch stands for, as ordered column/value pairs:
    /// empty exactly when the patch is empty.
    #[verifier::rlimit(100)]
    pub fn field_changes(&self) -> (r: Vec<FieldChange>)
        ensures
            field_change_views(r@) == field_changes_of(self@),
            r@.len() == 0 <==> self@.is_empty(),
    {
        let mut out: Vec<FieldChange> = Vec::new();
        proof {
            assert(field_change_views(out@) =~= Seq::<FieldChangeView>::empty());
        }
        if let Some(t) = &self.title {
            let c = FieldChange::Title(t.clone());
            proof {
                lemma_field_change_views_push(out@, c);
            }
            out.push(c);
        }
        if let Some(t) = &self.content {
            let c = FieldChange::Content(t.clone());
            proof {
                lemma_field_change_views_push(out@, c);
            }
            out.push(c);
        }
        if let Some(t) = &self.color {
            let c = FieldChange::Color(t.clone());
            proof {
                lemma_field_change_views_push(out@, c);
            }
            out.push(c);
        }
        if let Some(v) = self.pos_x {
            let c = FieldChange::PosX(v);
            proof {
                lemma_field_change_views_push(out@, c);
            }
            out.push(c);
        }
        if let Some(v) = self.pos_y {
            let c = FieldChange::PosY(v);
            proof {
                lemma_field_change_views_push(out@, c);
            }
            out.push(c);
        }
        if let Some(v) = self.width {
            let c = FieldChange::Width(v);
            proof {
                lemma_field_change_views_push(out@, c);
            }
            out.push(c);
        }
        if let Some(v) = self.height {
            let c = FieldChange::Height(v);
            proof {
                lemma_field_change_views_push(out@, c);
            }
            out.push(c);
        }
        if let Some(v) = self.is_open {
            let c = FieldChange::IsOpen(v);
            proof {
                lemma_field_change_views_push(out@, c);
            }
            out.push(c);
        }
        if let Some(v) = self.pinned {
            let c = FieldChange::Pinned(v);
            proof {
                lemma_field_change_views_push(out@, c);
            }
            out.push(c);
        }
        assert(field_change_views(out@) == field_changes_of(self@));
        out
    }
}

/// Mathematical value of a [`Setting`].
pub struct SettingView {
    pub key: Seq<char>,
    pub value: Seq<char>,
}

/// A key/value setting entry.
#[derive(Debug)]
pub struct Setting {
    pub key: String,
    pub value: String,
}

impl View for Setting {
    type V = SettingView;

    open spec fn view(&self) -> SettingView {
        SettingView { key: self.key@, value: self.value@ }
    }
}

impl Clone for Setting {
    /// Field-for-field copy, equal in view to the value cloned.
    fn clone(&self) -> (r: Self)
        ensures
            r@ == self@,
    {
        Setting { key: self.key.clone(), value: self.value.clone() }
    }
}

} // verus!
