//! Window lifecycle manager: at most one live surface per note id, plus the
//! two singleton surfaces (manager dashboard and settings).
//!
//! [`Surfaces`] models the host's surface registry: which note surfaces and
//! which singleton surfaces currently exist. Each operation decides between
//! focusing an existing surface and creating a new one, and says exactly how
//! the created surface must be configured; the caller that owns the real
//! windowing system performs the returned action.

use vstd::prelude::*;

use crate::models::{Note, NoteView};

verus! {

/// The character sequences of a sequence of id strings.
pub open spec fn id_views(s: Seq<String>) -> Seq<Seq<char>> {
    s.map_values(|x: String| x@)
}

/// No id occurs twice.
pub open spec fn unique_labels(ids: Seq<Seq<char>>) -> bool {
    forall|i: int, j: int| 0 <= i < j < ids.len() ==> ids[i] != ids[j]
}

/// Some entry equals `id`.
pub open spec fn has_label(ids: Seq<Seq<char>>, id: Seq<char>) -> bool {
    exists|i: int| 0 <= i < ids.len() && ids[i] == id
}

/// The position of `id` (meaningful when present).
pub open spec fn idx_of_label(ids: Seq<Seq<char>>, id: Seq<char>) -> int {
    choose|i: int| 0 <= i < ids.len() && ids[i] == id
}

/// How often `id` occurs.
pub open spec fn count_of_label(ids: Seq<Seq<char>>, id: Seq<char>) -> int
    decreases ids.len(),
{
    if ids.len() == 0 {
        0
    } else {
        count_of_label(ids.drop_last(), id) + if ids.last() == id {
            1int
        } else {
            0int
        }
    }
}

/// With labels unique, an id that is present occurs exactly once, and one
/// that is absent not at all.
pub proof fn lemma_count_of_unique_labels(ids: Seq<Seq<char>>, id: Seq<char>)
    requires
        unique_labels(ids),
    ensures
        has_label(ids, id) ==> count_of_label(ids, id) == 1,
        !has_label(ids, id) ==> count_of_label(ids, id) == 0,
    decreases ids.len(),
{
    if ids.len() > 0 {
        let pre = ids.drop_last();
        assert(forall|i: int| 0 <= i < pre.len() ==> pre[i] == ids[i]);
        lemma_count_of_unique_labels(pre, id);
        if ids.last() == id {
            assert(!has_label(pre, id)) by {
                if has_label(pre, id) {
                    let i = idx_of_label(pre, id);
                    assert(pre[i] == id);
                    assert(ids[i] == ids[ids.len() - 1]);
                }
            }
        } else {
            if has_label(ids, id) {
                let i = idx_of_label(ids, id);
                assert(ids[i] == id);
                assert(i < ids.len() - 1);
                assert(pre[i] == id);
                assert(has_label(pre, id));
            } else {
                if has_label(pre, id) {
                    let i = idx_of_label(pre, id);
                    assert(ids[i] == id);
                }
            }
        }
    }
}

/// The unique surface label of a note: `note-` followed by the note id.
pub open spec fn spec_note_label(id: Seq<char>) -> Seq<char> {
    "note-"@ + id
}

/// The label under which the host knows a note's surface.
pub fn note_label(id: &String) -> (r: String)
    ensures
        r@ == spec_note_label(id@),
{
    let mut label = "note-".to_owned();
    label.append(id.as_str());
    label
}

/// Mathematical value of a [`SurfaceConfig`].
pub struct SurfaceConfigView {
    pub title: Seq<char>,
    pub pos_x: u32,
    pub pos_y: u32,
    pub width: u32,
    pub height: u32,
    pub min_width: u32,
    pub min_height: u32,
    pub centered: bool,
    pub decorations: bool,
    pub transparent: bool,
    pub skip_taskbar: bool,
    pub always_on_top: bool,
    pub resizable: bool,
}

/// Everything the host windowing system needs to build a surface: title,
/// geometry (or centering), the minimum inner size the surface may be
/// shrunk to (zero meaning none is imposed), and the decoration policy.
#[derive(Debug)]
pub struct SurfaceConfig {
    pub title: String,
    pub pos_x: u32,
    pub pos_y: u32,
    pub width: u32,
    pub height: u32,
    pub min_width: u32,
    pub min_height: u32,
    pub centered: bool,
    pub decorations: bool,
    pub transparent: bool,
    pub skip_taskbar: bool,
    pub always_on_top: bool,
    pub resizable: bool,
}

impl View for SurfaceConfig {
    type V = SurfaceConfigView;

    open spec fn view(&self) -> SurfaceConfigView {
        SurfaceConfigView {
            title: self.title@,
            pos_x: self.pos_x,
            pos_y: self.pos_y,
            width: self.width,
            height: self.height,
            min_width: self.min_width,
            min_height: self.min_height,
            centered: self.centered,
            decorations: self.decorations,
            transparent: self.transparent,
            skip_taskbar: self.skip_taskbar,
            always_on_top: self.always_on_top,
            resizable: self.resizable,
        }
    }
}

/// The configuration of a note's surface: titled and placed from the note,
/// frameless, transparent (for custom rounded shapes), kept out of the
/// taskbar, and above all other windows exactly when the note is pinned.
pub open spec fn note_surface_config(n: NoteView) -> SurfaceConfigView {
    SurfaceConfigView {
        title: n.title,
        pos_x: n.pos_x,
        pos_y: n.pos_y,
        width: n.width,
        height: n.height,
        min_width: 0,
        min_height: 0,
        centered: false,
        decorations: false,
        transparent: true,
        skip_taskbar: true,
        always_on_top: n.pinned,
        resizable: true,
    }
}

/// The manager dashboard: a centered, decorated, resizable window with fixed
/// default geometry, a minimum inner size it cannot be shrunk below, and no
/// persisted entity behind it.
pub open spec fn manager_surface_config() -> SurfaceConfigView {
    SurfaceConfigView {
        title: "StickyNotes — Manager"@,
        pos_x: 0,
        pos_y: 0,
        width: 520,
        height: 600,
        min_width: 400,
        min_height: 400,
        centered: true,
        decorations: true,
        transparent: false,
        skip_taskbar: false,
        always_on_top: false,
        resizable: true,
    }
}

/// The settings window: centered, decorated, fixed-size.
pub open spec fn settings_surface_config() -> SurfaceConfigView {
    SurfaceConfigView {
        title: "StickyNotes — Settings"@,
        pos_x: 0,
        pos_y: 0,
        width: 450,
        height: 500,
        min_width: 0,
        min_height: 0,
        centered: true,
        decorations: true,
        transparent: false,
        skip_taskbar: false,
        always_on_top: false,
        resizable: false,
    }
}

/// What the caller must do after asking for a surface: focus the one that
/// already exists, or create one with the given configuration.
#[derive(Debug)]
pub enum OpenAction {
    Focused,
    Created(SurfaceConfig),
}

/// Mathematical state of [`Surfaces`]: the ids of the notes with a live
/// surface, and whether each singleton surface exists.
pub struct SurfacesView {
    pub note_ids: Seq<Seq<char>>,
    pub manager: bool,
    pub settings: bool,
}

/// The surface registry: which surfaces exist right now. Never persisted;
/// reconstructed at each start from the notes flagged open.
pub struct Surfaces {
    note_ids: Vec<String>,
    manager: bool,
    settings: bool,
}

/// How `open_note_window` moves the registry: nothing changes when the
/// note's surface exists already; otherwise exactly its id is added.
pub open spec fn note_opened(pre: SurfacesView, post: SurfacesView, id: Seq<char>) -> bool {
    &&& post.manager == pre.manager
    &&& post.settings == pre.settings
    &&& if has_label(pre.note_ids, id) {
        post.note_ids == pre.note_ids
    } else {
        post.note_ids == pre.note_ids.push(id)
    }
}

impl View for Surfaces {
    type V = SurfacesView;

    closed spec fn view(&self) -> SurfacesView {
        SurfacesView {
            note_ids: id_views(self.note_ids@),
            manager: self.manager,
            settings: self.settings,
        }
    }
}

impl Surfaces {
    /// No note id has two surfaces.
    pub open spec fn wf(self) -> bool {
        unique_labels(self@.note_ids)
    }

    /// The registry of a freshly started process: no surface exists.
    pub fn new() -> (r: Surfaces)
        ensures
            r.wf(),
            r@.note_ids == Seq::<Seq<char>>::empty(),
            !r@.manager,
            !r@.settings,
    {
        let s = Surfaces { note_ids: Vec::new(), manager: false, settings: false };
        proof {
            assert(id_views(s.note_ids@) =~= Seq::<Seq<char>>::empty());
        }
        s
    }

    /// Ask for the note's window. If its surface exists it is only brought
    /// to the foreground: no duplicate surface is ever created for one note
    /// id. Otherwise a surface configured by [`note_surface_config`] is
    /// created and recorded.
    pub fn open_note_window(&mut self, note: &Note) -> (r: OpenAction)
        requires
            old(self).wf(),
        ensures
            final(self).wf(),
            note_opened(old(self)@, final(self)@, note@.id),
            has_label(final(self)@.note_ids, note@.id),
            match r {
                OpenAction::Focused => has_label(old(self)@.note_ids, note@.id),
                OpenAction::Created(c) => !has_label(old(self)@.note_ids, note@.id) && c@
                    == note_surface_config(note@),
            },
    {
        let n = self.note_ids.len();
        let mut i: usize = 0;
        while i < n
            invariant
                self.wf(),
                self@ == old(self)@,
                n == self.note_ids@.len(),
                i <= n,
                forall|k: int| 0 <= k < i ==> self.note_ids@[k]@ != note@.id,
            decreases n - i,
        {
            if self.note_ids[i] == note.id {
                assert(self@.note_ids[i as int] == note@.id);
                return OpenAction::Focused;
            }
            i += 1;
        }
        assert(!has_label(self@.note_ids, note@.id));
        let ghost pre = self@.note_ids;
        self.note_ids.push(note.id.clone());
        proof {
            assert(id_views(self.note_ids@) =~= pre.push(note@.id));
            assert(final(self)@.note_ids[pre.len() as int] == note@.id);
            assert forall|p: int, q: int|
                0 <= p < q < final(self)@.note_ids.len() implies final(self)@.note_ids[p]
                != final(self)@.note_ids[q] by {
                if q < pre.len() {
                } else {
                    assert(final(self)@.note_ids[q] == note@.id);
                }
            }
        }
        OpenAction::Created(SurfaceConfig {
            title: note.title.clone(),
            pos_x: note.pos_x,
            pos_y: note.pos_y,
            width: note.width,
            height: note.height,
            min_width: 0,
            min_height: 0,
            centered: false,
            decorations: false,
            transparent: true,
            skip_taskbar: true,
            always_on_top: note.pinned,
            resizable: true,
        })
    }

    /// Close the note's window if it exists; doing so for an id without a
    /// surface is a no-op, not an error. Afterwards no surface with that id
    /// exists.
    pub fn close_note_window(&mut self, id: &String)
        requires
            old(self).wf(),
        ensures
            final(self).wf(),
            final(self)@.manager == old(self)@.manager,
            final(self)@.settings == old(self)@.settings,
            !has_label(final(self)@.note_ids, id@),
            has_label(old(self)@.note_ids, id@) ==> final(self)@.note_ids == old(self)@.note_ids.remove(idx_of_label(old(self)@.note_ids, id@)),
            !has_label(old(self)@.note_ids, id@) ==> final(self)@ == old(self)@,
    {
        let n = self.note_ids.len();
        let mut i: usize = 0;
        while i < n
            invariant
                self.wf(),
                self@ == old(self)@,
                n == self.note_ids@.len(),
                i <= n,
                forall|k: int| 0 <= k < i ==> self.note_ids@[k]@ != id@,
            decreases n - i,
        {
            if self.note_ids[i] == *id {
                proof {
                    assert(self@.note_ids[i as int] == id@);
                    let j = idx_of_label(self@.note_ids, id@);
                    if j < i {
                        assert(self@.note_ids[j] != self@.note_ids[i as int]);
                    } else if i < j {
                        assert(self@.note_ids[i as int] != self@.note_ids[j]);
                    }
                }
                let ghost pre = self@.note_ids;
                self.note_ids.remove(i);
                proof {
                    assert(id_views(self.note_ids@) =~= pre.remove(i as int));
                    pre.remove_ensures(i as int);
                    assert forall|p: int, q: int|
                        0 <= p < q < final(self)@.note_ids.len() implies final(self)@.note_ids[p] != final(self)@.note_ids[q] by {}
                    assert(!has_label(final(self)@.note_ids, id@)) by {
                        if has_label(final(self)@.note_ids, id@) {
                            let k = idx_of_label(final(self)@.note_ids, id@);
                            if k < i {
                                assert(pre[k] != pre[i as int]);
                            } else {
                                assert(pre[k + 1] != pre[i as int]);
                            }
                        }
                    }
                }
                return ;
            }
            i += 1;
        }
    }

    /// Ask for the manager dashboard, a singleton: focus it if it exists,
    /// otherwise create it with [`manager_surface_config`].
    pub fn open_manager_window(&mut self) -> (r: OpenAction)
        requires
            old(self).wf(),
        ensures
            final(self).wf(),
            final(self)@.note_ids == old(self)@.note_ids,
            final(self)@.settings == old(self)@.settings,
            final(self)@.manager,
            match r {
                OpenAction::Focused => old(self)@.manager,
                OpenAction::Created(c) => !old(self)@.manager && c@ == manager_surface_config(),
            },
    {
        if self.manager {
            return OpenAction::Focused;
        }
        self.manager = true;
        OpenAction::Created(SurfaceConfig {
            title: "StickyNotes — Manager".to_owned(),
            pos_x: 0,
            pos_y: 0,
            width: 520,
            height: 600,
            min_width: 400,
            min_height: 400,
            centered: true,
            decorations: true,
            transparent: false,
            skip_taskbar: false,
            always_on_top: false,
            resizable: true,
        })
    }

    /// Ask for the settings window, a singleton: focus it if it exists,
    /// otherwise create it with [`settings_surface_config`].
    pub fn open_settings_window(&mut self) -> (r: OpenAction)
        requires
            old(self).wf(),
        ensures
            final(self).wf(),
            final(self)@.note_ids == old(self)@.note_ids,
            final(self)@.manager == old(self)@.manager,
            final(self)@.settings,
            match r {
                OpenAction::Focused => old(self)@.settings,
                OpenAction::Created(c) => !old(self)@.settings && c@ == settings_surface_config(),
            },
    {
        if self.settings {
            return OpenAction::Focused;
        }
        self.settings = true;
        OpenAction::Created(SurfaceConfig {
            title: "StickyNotes — Settings".to_owned(),
            pos_x: 0,
            pos_y: 0,
            width: 450,
            height: 500,
            min_width: 0,
            min_height: 0,
            centered: true,
            decorations: true,
            transparent: false,
            skip_taskbar: false,
            always_on_top: false,
            resizable: false,
        })
    }

    /// A second launch of the application was detected: no second process
    /// state is created; the running instance redirects to its dashboard.
    pub fn handle_second_launch(&mut self) -> (r: OpenAction)
        requires
            old(self).wf(),
        ensures
            final(self).wf(),
            final(self)@.note_ids == old(self)@.note_ids,
            final(self)@.settings == old(self)@.settings,
            final(self)@.manager,
            match r {
                OpenAction::Focused => old(self)@.manager,
                OpenAction::Created(c) => !old(self)@.manager && c@ == manager_surface_config(),
            },
    {
        self.open_manager_window()
    }
}

/// Asking twice in a row for one note's window leaves exactly one surface
/// with that note's id, and the second call finds the surface already there.
pub proof fn lemma_open_twice_one_surface(
    s0: SurfacesView,
    s1: SurfacesView,
    s2: SurfacesView,
    id: Seq<char>,
)
    requires
        unique_labels(s0.note_ids),
        unique_labels(s2.note_ids),
        note_opened(s0, s1, id),
        has_label(s1.note_ids, id),
        note_opened(s1, s2, id),
    ensures
        s2 == s1,
        count_of_label(s2.note_ids, id) == 1,
{
    lemma_count_of_unique_labels(s2.note_ids, id);
}

} // verus!
