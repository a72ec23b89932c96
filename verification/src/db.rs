//! The note store: CRUD with partial-update semantics and key/value
//! settings, modelled over sequences of note and setting values.
//!
//! The store owns the persisted state of the application. Callers that keep
//! the state durable mirror each mutation to their medium; the store itself
//! defines what every operation returns and how it changes the state.

use vstd::prelude::*;

use crate::errors::StoreError;
use crate::models::{
    apply_update, opt_view, Note, NoteUpdate, NoteView, Setting, SettingView,
};

verus! {

/// The character sequences of the views of a sequence of notes.
pub open spec fn note_views(s: Seq<Note>) -> Seq<NoteView> {
    s.map_values(|n: Note| n@)
}

/// The views of a sequence of settings.
pub open spec fn setting_views(s: Seq<Setting>) -> Seq<SettingView> {
    s.map_values(|t: Setting| t@)
}

/// No two notes share an id.
pub open spec fn unique_ids(notes: Seq<NoteView>) -> bool {
    forall|i: int, j: int|
        0 <= i < j < notes.len() ==> notes[i].id != notes[j].id
}

/// No two settings share a key.
pub open spec fn unique_keys(settings: Seq<SettingView>) -> bool {
    forall|i: int, j: int|
        0 <= i < j < settings.len() ==> settings[i].key != settings[j].key
}

/// Some note in `notes` has id `id`.
pub open spec fn contains_id(notes: Seq<NoteView>, id: Seq<char>) -> bool {
    exists|i: int| 0 <= i < notes.len() && notes[i].id == id
}

/// The position of the note with id `id` (meaningful when one exists).
pub open spec fn idx_of_id(notes: Seq<NoteView>, id: Seq<char>) -> int {
    choose|i: int| 0 <= i < notes.len() && notes[i].id == id
}

/// The note with id `id` (meaningful when one exists).
pub open spec fn note_with_id(notes: Seq<NoteView>, id: Seq<char>) -> NoteView {
    notes[idx_of_id(notes, id)]
}

/// Some setting in `settings` has key `key`.
pub open spec fn contains_key(settings: Seq<SettingView>, key: Seq<char>) -> bool {
    exists|i: int| 0 <= i < settings.len() && settings[i].key == key
}

/// The position of the setting with key `key` (meaningful when one exists).
pub open spec fn idx_of_key(settings: Seq<SettingView>, key: Seq<char>) -> int {
    choose|i: int| 0 <= i < settings.len() && settings[i].key == key
}

/// The value stored under `key` (meaningful when the key is present).
pub open spec fn value_of_key(settings: Seq<SettingView>, key: Seq<char>) -> Seq<char> {
    settings[idx_of_key(settings, key)].value
}

/// With ids unique, the note found at position `i` is the note that
/// `idx_of_id` denotes.
pub proof fn lemma_idx_of_id_is(notes: Seq<NoteView>, id: Seq<char>, i: int)
    requires
        unique_ids(notes),
        0 <= i < notes.len(),
        notes[i].id == id,
    ensures
        contains_id(notes, id),
        idx_of_id(notes, id) == i,
{
    assert(contains_id(notes, id));
    let j = idx_of_id(notes, id);
    if j < i {
        assert(notes[j].id != notes[i].id);
    } else if i < j {
        assert(notes[i].id != notes[j].id);
    }
}

/// With keys unique, the setting found at position `i` is the setting that
/// `idx_of_key` denotes.
pub proof fn lemma_idx_of_key_is(settings: Seq<SettingView>, key: Seq<char>, i: int)
    requires
        unique_keys(settings),
        0 <= i < settings.len(),
        settings[i].key == key,
    ensures
        contains_key(settings, key),
        idx_of_key(settings, key) == i,
{
    assert(contains_key(settings, key));
    let j = idx_of_key(settings, key);
    if j < i {
        assert(settings[j].key != settings[i].key);
    } else if i < j {
        assert(settings[i].key != settings[j].key);
    }
}

proof fn lemma_note_views_push(s: Seq<Note>, n: Note)
    ensures
        note_views(s.push(n)) == note_views(s).push(n@),
{
    assert(note_views(s.push(n)) =~= note_views(s).push(n@));
}

proof fn lemma_note_views_update(s: Seq<Note>, i: int, n: Note)
    requires
        0 <= i < s.len(),
    ensures
        note_views(s.update(i, n)) == note_views(s).update(i, n@),
{
    assert(note_views(s.update(i, n)) =~= note_views(s).update(i, n@));
}

proof fn lemma_note_views_remove(s: Seq<Note>, i: int)
    requires
        0 <= i < s.len(),
    ensures
        note_views(s.remove(i)) == note_views(s).remove(i),
{
    assert(note_views(s.remove(i)) =~= note_views(s).remove(i));
}

proof fn lemma_setting_views_push(s: Seq<Setting>, t: Setting)
    ensures
        setting_views(s.push(t)) == setting_views(s).push(t@),
{
    assert(setting_views(s.push(t)) =~= setting_views(s).push(t@));
}

proof fn lemma_setting_views_update(s: Seq<Setting>, i: int, t: Setting)
    requires
        0 <= i < s.len(),
    ensures
        setting_views(s.update(i, t)) == setting_views(s).update(i, t@),
{
    assert(setting_views(s.update(i, t)) =~= setting_views(s).update(i, t@));
}

/// Notes ordered from most recently to least recently updated.
pub open spec fn sorted_by_updated_desc(s: Seq<NoteView>) -> bool {
    forall|i: int, j: int|
        0 <= i <= j < s.len() ==> s[i].updated_at >= s[j].updated_at
}

/// Where the listing places a note among already listed ones: after every
/// note updated at its time or later, so notes updated at the same time
/// keep their storage order.
pub open spec fn listing_pos(s: Seq<NoteView>, x: NoteView) -> int
    decreases s.len(),
{
    if s.len() == 0 {
        0
    } else if s[0].updated_at >= x.updated_at {
        1 + listing_pos(s.drop_first(), x)
    } else {
        0
    }
}

/// The one listing that `get_all_notes` returns: the notes in storage
/// order, each inserted at its [`listing_pos`]. Most recently updated
/// first; ties stay in storage order.
pub open spec fn sorted_listing(s: Seq<NoteView>) -> Seq<NoteView>
    decreases s.len(),
{
    if s.len() == 0 {
        Seq::<NoteView>::empty()
    } else {
        let prefix = sorted_listing(s.drop_last());
        prefix.insert(listing_pos(prefix, s.last()), s.last())
    }
}

proof fn lemma_listing_pos_bounds(s: Seq<NoteView>, x: NoteView)
    ensures
        0 <= listing_pos(s, x) <= s.len(),
    decreases s.len(),
{
    if s.len() > 0 && s[0].updated_at >= x.updated_at {
        lemma_listing_pos_bounds(s.drop_first(), x);
    }
}

/// The first position whose note was updated strictly before `x` is where
/// the listing places `x`.
proof fn lemma_listing_pos_is(s: Seq<NoteView>, x: NoteView, i: int)
    requires
        0 <= i <= s.len(),
        forall|p: int| 0 <= p < i ==> s[p].updated_at >= x.updated_at,
        i < s.len() ==> s[i].updated_at < x.updated_at,
    ensures
        listing_pos(s, x) == i,
    decreases i,
{
    if s.len() > 0 && i > 0 {
        let t = s.drop_first();
        assert(forall|p: int| 0 <= p < t.len() ==> t[p] == s[p + 1]);
        lemma_listing_pos_is(t, x, i - 1);
    }
}

proof fn lemma_note_views_insert(s: Seq<Note>, i: int, n: Note)
    requires
        0 <= i <= s.len(),
    ensures
        note_views(s.insert(i, n)) == note_views(s).insert(i, n@),
{
    assert(note_views(s.insert(i, n)) =~= note_views(s).insert(i, n@));
}

proof fn lemma_to_multiset_insert(s: Seq<NoteView>, i: int, x: NoteView)
    requires
        0 <= i <= s.len(),
    ensures
        s.insert(i, x).to_multiset() == s.to_multiset().insert(x),
{
    broadcast use vstd::seq_lib::group_to_multiset_ensures;

    let l = s.subrange(0, i);
    let r = s.subrange(i, s.len() as int);
    assert(s =~= l + r);
    vstd::seq_lib::lemma_multiset_commutative(l.push(x), r);
    vstd::seq_lib::lemma_multiset_commutative(l, r);
    assert(s.insert(i, x).to_multiset() =~= s.to_multiset().insert(x));
}

proof fn lemma_sorted_insert(s: Seq<NoteView>, i: int, x: NoteView)
    requires
        sorted_by_updated_desc(s),
        0 <= i <= s.len(),
        forall|p: int| 0 <= p < i ==> s[p].updated_at >= x.updated_at,
        i < s.len() ==> s[i].updated_at < x.updated_at,
    ensures
        sorted_by_updated_desc(s.insert(i, x)),
{
    s.insert_ensures(i, x);
    let t = s.insert(i, x);
    assert forall|p: int, q: int|
        0 <= p <= q < t.len() implies t[p].updated_at >= t[q].updated_at by {
        if p < i {
            assert(t[p] == s[p]);
        } else if p > i {
            assert(t[p] == s[p - 1]);
        }
        if q < i {
            assert(t[q] == s[q]);
        } else if q > i {
            assert(t[q] == s[q - 1]);
        }
    }
}

/// With pairwise distinct update times there is exactly one way to list a
/// set of notes most-recently-updated first: two sorted sequences holding
/// the same notes are equal, element for element.
pub proof fn lemma_sorted_listing_unique(a: Seq<NoteView>, b: Seq<NoteView>)
    requires
        a.to_multiset() == b.to_multiset(),
        sorted_by_updated_desc(a),
        sorted_by_updated_desc(b),
        forall|i: int, j: int|
            0 <= i < j < a.len() ==> a[i].updated_at != a[j].updated_at,
    ensures
        a == b,
    decreases a.len(),
{
    broadcast use vstd::seq_lib::group_to_multiset_ensures;

    assert(a.len() == a.to_multiset().len());
    assert(b.len() == b.to_multiset().len());
    if a.len() == 0 {
        assert(a =~= b);
    } else {
        assert(b.len() == a.len());
        assert(a.contains(a[0]));
        assert(b.to_multiset().count(a[0]) > 0);
        assert(b.contains(a[0]));
        let k = choose|k: int| 0 <= k < b.len() && b[k] == a[0];
        assert(a.to_multiset().count(b[0]) > 0);
        assert(a.contains(b[0]));
        let m = choose|m: int| 0 <= m < a.len() && a[m] == b[0];
        assert(a[0].updated_at >= a[m].updated_at);
        assert(b[0].updated_at >= b[k].updated_at);
        assert(a[0].updated_at == b[0].updated_at);
        if m != 0 {
            assert(a[0].updated_at != a[m].updated_at);
            assert(false);
        }
        assert(a[0] == b[0]);
        let at = a.drop_first();
        let bt = b.drop_first();
        assert(a.remove(0) =~= at);
        assert(b.remove(0) =~= bt);
        assert(at.to_multiset() == a.to_multiset().remove(a[0]));
        assert(bt.to_multiset() == b.to_multiset().remove(b[0]));
        assert(at.to_multiset() == bt.to_multiset());
        assert(sorted_by_updated_desc(at)) by {
            assert(forall|i: int| 0 <= i < at.len() ==> at[i] == a[i + 1]);
        }
        assert(sorted_by_updated_desc(bt)) by {
            assert(forall|i: int| 0 <= i < bt.len() ==> bt[i] == b[i + 1]);
        }
        assert forall|i: int, j: int|
            0 <= i < j < at.len() implies at[i].updated_at != at[j].updated_at by {
            assert(at[i] == a[i + 1]);
            assert(at[j] == a[j + 1]);
        }
        lemma_sorted_listing_unique(at, bt);
        assert(a =~= b) by {
            assert(forall|i: int| 1 <= i < a.len() ==> a[i] == at[i - 1]);
            assert(forall|i: int| 1 <= i < b.len() ==> b[i] == bt[i - 1]);
        }
    }
}

/// A note just created is the note that a lookup by its id then returns,
/// and it starts closed (`is_open` false), unpinned, and with the requested
/// or default color.
pub proof fn lemma_create_then_get(
    pre: Seq<NoteView>,
    post: Seq<NoteView>,
    n: NoteView,
    color: Option<Seq<char>>,
    now: u64,
)
    requires
        unique_ids(pre),
        !contains_id(pre, n.id),
        n == fresh_note(n.id, chosen_color(color), now),
        post == pre.push(n),
    ensures
        unique_ids(post),
        contains_id(post, n.id),
        note_with_id(post, n.id) == n,
        !n.is_open,
        !n.pinned,
        n.color == chosen_color(color),
{
    assert(post[pre.len() as int] == n);
    assert forall|i: int, j: int| 0 <= i < j < post.len() implies post[i].id != post[j].id by {
        if j < pre.len() {
        } else {
            assert(post[j] == n);
            assert(post[i] == pre[i]);
        }
    }
    lemma_idx_of_id_is(post, n.id, pre.len() as int);
}

/// Mathematical state of a [`Database`]: the persisted notes in storage order
/// and the persisted settings.
pub struct DatabaseView {
    pub notes: Seq<NoteView>,
    pub settings: Seq<SettingView>,
}

/// The color given to a note created without one.
pub open spec fn default_color() -> Seq<char> {
    "yellow"@
}

/// The color a created note ends up with: the requested one, or the default.
pub open spec fn chosen_color(c: Option<Seq<char>>) -> Seq<char> {
    match c {
        Option::Some(s) => s,
        Option::None => default_color(),
    }
}

/// The row a freshly created note starts from: empty title and content,
/// empty geometry, closed and unpinned, both timestamps at `now`.
pub open spec fn fresh_note(id: Seq<char>, color: Seq<char>, now: u64) -> NoteView {
    NoteView {
        id: id,
        title: Seq::<char>::empty(),
        content: Seq::<char>::empty(),
        color: color,
        pos_x: 0,
        pos_y: 0,
        width: 0,
        height: 0,
        is_open: false,
        pinned: false,
        created_at: now,
        updated_at: now,
    }
}

/// The note store. All access is meant to be serialized by the caller: one
/// lock around the whole store, reads and writes alike.
#[derive(Debug)]
pub struct Database {
    notes: Vec<Note>,
    settings: Vec<Setting>,
}

/// Relies on `uuid::Uuid::new_v4` and its hyphenated `Display` form: a fresh
/// random version-4 UUID rendered as a 36-character string. The draw is
/// random, so nothing relates the result to earlier ids.
#[verifier::external_body]
fn new_note_id() -> (r: String)
    ensures
        r@.len() == 36,
{
    uuid::Uuid::new_v4().to_string()
}

impl View for Database {
    type V = DatabaseView;

    closed spec fn view(&self) -> DatabaseView {
        DatabaseView {
            notes: note_views(self.notes@),
            settings: setting_views(self.settings@),
        }
    }
}

impl Database {
    /// Note ids and setting keys are unique.
    pub open spec fn wf(self) -> bool {
        &&& unique_ids(self@.notes)
        &&& unique_keys(self@.settings)
    }

    /// An empty store.
    pub fn new() -> (r: Database)
        ensures
            r.wf(),
            r@.notes == Seq::<NoteView>::empty(),
            r@.settings == Seq::<SettingView>::empty(),
    {
        let s = Database { notes: Vec::new(), settings: Vec::new() };
        proof {
            assert(note_views(s.notes@) =~= Seq::<NoteView>::empty());
            assert(setting_views(s.settings@) =~= Seq::<SettingView>::empty());
        }
        s
    }

    /// Bring a store up from rows read back from the durable medium.
    ///
    /// Succeeds exactly when the rows are well formed — note ids unique and
    /// setting keys unique; anything else means the medium is corrupt and
    /// start-up must not continue.
    pub fn init(notes: Vec<Note>, settings: Vec<Setting>) -> (r: Result<Database, StoreError>)
        ensures
            match r {
                Ok(s) => {
                    &&& s.wf()
                    &&& s@.notes == note_views(notes@)
                    &&& s@.settings == setting_views(settings@)
                },
                Err(e) => {
                    &&& e == StoreError::InitializationFailure
                    &&& !(unique_ids(note_views(notes@)) && unique_keys(
                        setting_views(settings@),
                    ))
                },
            },
    {
        let n = notes.len();
        let mut i: usize = 0;
        while i < n
            invariant
                n == notes@.len(),
                i <= n,
                forall|p: int, q: int|
                    0 <= p < q < i ==> notes@[p]@.id != notes@[q]@.id,
            decreases n - i,
        {
            let mut j: usize = 0;
            while j < i
                invariant
                    i < n == notes@.len(),
                    j <= i,
                    forall|p: int, q: int|
                        0 <= p < q < i ==> notes@[p]@.id != notes@[q]@.id,
                    forall|p: int| 0 <= p < j ==> notes@[p]@.id != notes@[i as int]@.id,
                decreases i - j,
            {
                if notes[j].id == notes[i].id {
                    assert(note_views(notes@)[j as int].id == note_views(notes@)[i as int].id);
                    assert(!unique_ids(note_views(notes@)));
                    return Err(StoreError::InitializationFailure);
                }
                j += 1;
            }
            i += 1;
        }
        let m = settings.len();
        let mut i: usize = 0;
        while i < m
            invariant
                m == settings@.len(),
                i <= m,
                forall|p: int, q: int|
                    0 <= p < q < i ==> settings@[p]@.key != settings@[q]@.key,
            decreases m - i,
        {
            let mut j: usize = 0;
            while j < i
                invariant
                    i < m == settings@.len(),
                    j <= i,
                    forall|p: int, q: int|
                        0 <= p < q < i ==> settings@[p]@.key != settings@[q]@.key,
                    forall|p: int| 0 <= p < j ==> settings@[p]@.key != settings@[i as int]@.key,
                decreases i - j,
            {
                if settings[j].key == settings[i].key {
                    assert(setting_views(settings@)[j as int].key == setting_views(settings@)[i as int].key);
                    assert(!unique_keys(setting_views(settings@)));
                    return Err(StoreError::InitializationFailure);
                }
                j += 1;
            }
            i += 1;
        }
        Ok(Database { notes, settings })
    }

    /// All notes, ordered by `updated_at` descending: the most recently
    /// touched note comes first. An empty result is valid, not an error.
    pub fn get_all_notes(&self) -> (r: Vec<Note>)
        ensures
            sorted_by_updated_desc(note_views(r@)),
            note_views(r@).to_multiset() == self@.notes.to_multiset(),
            note_views(r@) == sorted_listing(self@.notes),
    {
        broadcast use vstd::seq_lib::group_to_multiset_ensures;

        let n = self.notes.len();
        let mut out: Vec<Note> = Vec::new();
        proof {
            assert(note_views(out@) =~= Seq::<NoteView>::empty());
            assert(self@.notes.subrange(0, 0) =~= Seq::<NoteView>::empty());
            assert(note_views(out@).to_multiset() =~= self@.notes.subrange(
                0,
                0,
            ).to_multiset());
            assert(note_views(out@) == sorted_listing(self@.notes.subrange(0, 0)));
        }
        let mut k: usize = 0;
        while k < n
            invariant
                n == self.notes@.len(),
                k <= n,
                sorted_by_updated_desc(note_views(out@)),
                note_views(out@).to_multiset() == self@.notes.subrange(
                    0,
                    k as int,
                ).to_multiset(),
                note_views(out@) == sorted_listing(self@.notes.subrange(0, k as int)),
            decreases n - k,
        {
            let note = self.notes[k].clone();
            let olen = out.len();
            let mut idx: usize = 0;
            while idx < olen && out[idx].updated_at >= note.updated_at
                invariant
                    olen == out@.len(),
                    idx <= olen,
                    forall|p: int| 0 <= p < idx ==> note_views(out@)[p].updated_at
                        >= note@.updated_at,
                decreases olen - idx,
            {
                idx += 1;
            }
            proof {
                assert(note@ == self@.notes[k as int]);
                lemma_sorted_insert(note_views(out@), idx as int, note@);
                lemma_to_multiset_insert(note_views(out@), idx as int, note@);
                lemma_note_views_insert(out@, idx as int, note);
                assert(self@.notes.subrange(0, k + 1 as int) =~= self@.notes.subrange(
                    0,
                    k as int,
                ).push(self@.notes[k as int]));
                vstd::seq_lib::to_multiset_build(self@.notes.subrange(0, k as int), note@);
                assert(self@.notes.subrange(0, k as int).push(note@).to_multiset()
                    == self@.notes.subrange(0, k as int).to_multiset().insert(note@));
                assert(note_views(out@).insert(idx as int, note@).to_multiset()
                    == self@.notes.subrange(0, k + 1 as int).to_multiset());
                lemma_listing_pos_is(note_views(out@), note@, idx as int);
                let longer = self@.notes.subrange(0, k + 1 as int);
                assert(longer.drop_last() =~= self@.notes.subrange(0, k as int));
                assert(longer.last() == note@);
                assert(sorted_listing(longer) == note_views(out@).insert(idx as int, note@));
            }
            out.insert(idx, note);
            k += 1;
        }
        proof {
            assert(self@.notes.subrange(0, n as int) =~= self@.notes);
        }
        out
    }

    /// Look a note up by id. Returns the row, or `NotFound` exactly when no
    /// note has that id.
    pub fn get_note(&self, id: &String) -> (r: Result<Note, StoreError>)
        requires
            self.wf(),
        ensures
            match r {
                Ok(n) => {
                    &&& contains_id(self@.notes, id@)
                    &&& n@ == note_with_id(self@.notes, id@)
                },
                Err(e) => {
                    &&& e == StoreError::NotFound
                    &&& !contains_id(self@.notes, id@)
                },
            },
    {
        let n = self.notes.len();
        let mut i: usize = 0;
        while i < n
            invariant
                self.wf(),
                n == self.notes@.len(),
                i <= n,
                forall|k: int| 0 <= k < i ==> self.notes@[k]@.id != id@,
            decreases n - i,
        {
            if self.notes[i].id == *id {
                proof {
                    lemma_idx_of_id_is(self@.notes, id@, i as int);
                }
                return Ok(self.notes[i].clone());
            }
            i += 1;
        }
        Err(StoreError::NotFound)
    }

    /// Create a note with a fresh random id: empty title and content, empty
    /// geometry, closed and unpinned, the requested color or the default,
    /// both timestamps at `now`. Fails with `StorageFailure` only if the
    /// drawn id collides with an existing one (the id-uniqueness
    /// constraint), which needs a stored id of the drawn form's length: a
    /// store holding no 36-character id — the empty store among them —
    /// always succeeds.
    pub fn create_note(&mut self, color: Option<String>, now: u64) -> (r: Result<
        Note,
        StoreError,
    >)
        requires
            old(self).wf(),
        ensures
            final(self).wf(),
            match r {
                Ok(n) => {
                    &&& n@ == fresh_note(n@.id, chosen_color(opt_view(color)), now)
                    &&& n@.id.len() == 36
                    &&& !contains_id(old(self)@.notes, n@.id)
                    &&& final(self)@.notes == old(self)@.notes.push(n@)
                    &&& final(self)@.settings == old(self)@.settings
                },
                Err(e) => {
                    &&& e == StoreError::StorageFailure
                    &&& final(self)@ == old(self)@
                },
            },
            r is Err ==> exists|i: int|
                0 <= i < old(self)@.notes.len() && old(self)@.notes[i].id.len() == 36,
    {
        let id = new_note_id();
        let ghost idv = id@;
        let r = self.create_note_with_id(id, color, now);
        proof {
            if r is Err {
                let i = choose|i: int|
                    0 <= i < old(self)@.notes.len() && old(self)@.notes[i].id == idv;
                assert(old(self)@.notes[i].id.len() == 36);
            }
        }
        r
    }

    /// Create a note under a caller-chosen id. Succeeds exactly when no note
    /// already has that id; a collision is a constraint violation,
    /// `StorageFailure`.
    pub fn create_note_with_id(&mut self, id: String, color: Option<String>, now: u64) -> (r:
        Result<Note, StoreError>)
        requires
            old(self).wf(),
        ensures
            final(self).wf(),
            match r {
                Ok(n) => {
                    &&& !contains_id(old(self)@.notes, id@)
                    &&& n@ == fresh_note(id@, chosen_color(opt_view(color)), now)
                    &&& final(self)@.notes == old(self)@.notes.push(n@)
                    &&& final(self)@.settings == old(self)@.settings
                },
                Err(e) => {
                    &&& e == StoreError::StorageFailure
                    &&& contains_id(old(self)@.notes, id@)
                    &&& final(self)@ == old(self)@
                },
            },
    {
        let n = self.notes.len();
        let mut i: usize = 0;
        while i < n
            invariant
                self.wf(),
                self@ == old(self)@,
                n == self.notes@.len(),
                i <= n,
                forall|k: int| 0 <= k < i ==> self.notes@[k]@.id != id@,
            decreases n - i,
        {
            if self.notes[i].id == id {
                assert(contains_id(self@.notes, id@)) by {
                    assert(self@.notes[i as int].id == id@);
                }
                return Err(StoreError::StorageFailure);
            }
            i += 1;
        }
        assert(!contains_id(self@.notes, id@));
        let note = Note {
            id: id,
            title: String::new(),
            content: String::new(),
            color: match color {
                Some(c) => c,
                None => "yellow".to_owned(),
            },
            pos_x: 0,
            pos_y: 0,
            width: 0,
            height: 0,
            is_open: false,
            pinned: false,
            created_at: now,
            updated_at: now,
        };
        let ret = note.clone();
        proof {
            lemma_note_views_push(self.notes@, note);
        }
        let ghost pre = self@.notes;
        self.notes.push(note);
        proof {
            assert forall|p: int, q: int|
                0 <= p < q < final(self)@.notes.len() implies final(self)@.notes[p].id != final(self)@.notes[q].id by {
                if q < pre.len() {
                } else {
                    assert(final(self)@.notes[q].id == ret@.id);
                }
            }
        }
        Ok(ret)
    }

    /// Apply a sparse patch to the note with id `id` and return the row that
    /// results. Absent fields are kept; `updated_at` moves to `now` exactly
    /// when at least one field is present. `NotFound` exactly when no note
    /// has that id.
    pub fn update_note(&mut self, id: &String, update: NoteUpdate, now: u64) -> (r: Result<
        Note,
        StoreError,
    >)
        requires
            old(self).wf(),
        ensures
            final(self).wf(),
            match r {
                Ok(n) => {
                    &&& contains_id(old(self)@.notes, id@)
                    &&& n@ == apply_update(note_with_id(old(self)@.notes, id@), update@, now)
                    &&& final(self)@.notes == old(self)@.notes.update(
                        idx_of_id(old(self)@.notes, id@),
                        n@,
                    )
                    &&& final(self)@.settings == old(self)@.settings
                },
                Err(e) => {
                    &&& e == StoreError::NotFound
                    &&& !contains_id(old(self)@.notes, id@)
                    &&& final(self)@ == old(self)@
                },
            },
    {
        let n = self.notes.len();
        let mut i: usize = 0;
        while i < n
            invariant
                self.wf(),
                self@ == old(self)@,
                n == self.notes@.len(),
                i <= n,
                forall|k: int| 0 <= k < i ==> self.notes@[k]@.id != id@,
            decreases n - i,
        {
            if self.notes[i].id == *id {
                proof {
                    lemma_idx_of_id_is(self@.notes, id@, i as int);
                }
                let NoteUpdate {
                    title,
                    content,
                    color,
                    pos_x,
                    pos_y,
                    width,
                    height,
                    is_open,
                    pinned,
                } = update;
                let present = title.is_some() || content.is_some() || color.is_some()
                    || pos_x.is_some() || pos_y.is_some() || width.is_some() || height.is_some()
                    || is_open.is_some() || pinned.is_some();
                let cur = &self.notes[i];
                let patched = Note {
                    id: cur.id.clone(),
                    title: match title {
                        Some(t) => t,
                        None => cur.title.clone(),
                    },
                    content: match content {
                        Some(t) => t,
                        None => cur.content.clone(),
                    },
                    color: match color {
                        Some(t) => t,
                        None => cur.color.clone(),
                    },
                    pos_x: match pos_x {
                        Some(v) => v,
                        None => cur.pos_x,
                    },
                    pos_y: match pos_y {
                        Some(v) => v,
                        None => cur.pos_y,
                    },
                    width: match width {
                        Some(v) => v,
                        None => cur.width,
                    },
                    height: match height {
                        Some(v) => v,
                        None => cur.height,
                    },
                    is_open: match is_open {
                        Some(v) => v,
                        None => cur.is_open,
                    },
                    pinned: match pinned {
                        Some(v) => v,
                        None => cur.pinned,
                    },
                    created_at: cur.created_at,
                    updated_at: if present {
                        now
                    } else {
                        cur.updated_at
                    },
                };
                assert(patched@ == apply_update(note_with_id(self@.notes, id@), update@, now));
                let ret = patched.clone();
                proof {
                    lemma_note_views_update(self.notes@, i as int, patched);
                }
                let ghost pre = self@.notes;
                self.notes[i] = patched;
                proof {
                    assert forall|p: int, q: int|
                        0 <= p < q < final(self)@.notes.len() implies final(self)@.notes[p].id
                        != final(self)@.notes[q].id by {
                        assert(final(self)@.notes[p].id == pre[p].id);
                        assert(final(self)@.notes[q].id == pre[q].id);
                    }
                }
                return Ok(ret);
            }
            i += 1;
        }
        Err(StoreError::NotFound)
    }

    /// Delete the note with id `id`. Deliberately idempotent: deleting an id
    /// that matches no row succeeds and changes nothing.
    pub fn delete_note(&mut self, id: &String) -> (r: Result<(), StoreError>)
        requires
            old(self).wf(),
        ensures
            final(self).wf(),
            r is Ok,
            contains_id(old(self)@.notes, id@) ==> final(self)@.notes == old(self)@.notes.remove(
                idx_of_id(old(self)@.notes, id@),
            ),
            !contains_id(old(self)@.notes, id@) ==> final(self)@ == old(self)@,
            !contains_id(final(self)@.notes, id@),
            final(self)@.settings == old(self)@.settings,
    {
        let n = self.notes.len();
        let mut i: usize = 0;
        while i < n
            invariant
                self.wf(),
                self@ == old(self)@,
                n == self.notes@.len(),
                i <= n,
                forall|k: int| 0 <= k < i ==> self.notes@[k]@.id != id@,
            decreases n - i,
        {
            if self.notes[i].id == *id {
                proof {
                    lemma_idx_of_id_is(self@.notes, id@, i as int);
                    lemma_note_views_remove(self.notes@, i as int);
                }
                let ghost pre = self@.notes;
                self.notes.remove(i);
                proof {
                    assert forall|p: int, q: int|
                        0 <= p < q < final(self)@.notes.len() implies final(self)@.notes[p].id
                        != final(self)@.notes[q].id by {
                        assert(final(self)@.notes =~= pre.remove(i as int));
                    }
                    pre.remove_ensures(i as int);
                    assert(!contains_id(final(self)@.notes, id@)) by {
                        if contains_id(final(self)@.notes, id@) {
                            let k = idx_of_id(final(self)@.notes, id@);
                            if k < i {
                                assert(pre[k].id != pre[i as int].id);
                            } else {
                                assert(pre[k + 1].id != pre[i as int].id);
                            }
                        }
                    }
                }
                return Ok(());
            }
            i += 1;
        }
        Ok(())
    }

    /// Look a setting up by key. Returns its value, or `NotFound` exactly
    /// when the key is absent.
    pub fn get_setting(&self, key: &String) -> (r: Result<String, StoreError>)
        requires
            self.wf(),
        ensures
            match r {
                Ok(v) => {
                    &&& contains_key(self@.settings, key@)
                    &&& v@ == value_of_key(self@.settings, key@)
                },
                Err(e) => {
                    &&& e == StoreError::NotFound
                    &&& !contains_key(self@.settings, key@)
                },
            },
    {
        let m = self.settings.len();
        let mut i: usize = 0;
        while i < m
            invariant
                self.wf(),
                m == self.settings@.len(),
                i <= m,
                forall|k: int| 0 <= k < i ==> self.settings@[k]@.key != key@,
            decreases m - i,
        {
            if self.settings[i].key == *key {
                proof {
                    lemma_idx_of_key_is(self@.settings, key@, i as int);
                }
                return Ok(self.settings[i].value.clone());
            }
            i += 1;
        }
        Err(StoreError::NotFound)
    }

    /// Database `value` under `key`: an upsert that creates the entry on first
    /// use and overwrites it thereafter. Never fails.
    pub fn set_setting(&mut self, key: &String, value: &String) -> (r: Result<(), StoreError>)
        requires
            old(self).wf(),
        ensures
            final(self).wf(),
            r is Ok,
            final(self)@.notes == old(self)@.notes,
            contains_key(old(self)@.settings, key@) ==> final(self)@.settings == old(self)@.settings.update(
                idx_of_key(old(self)@.settings, key@),
                SettingView { key: key@, value: value@ },
            ),
            !contains_key(old(self)@.settings, key@) ==> final(self)@.settings == old(self)@.settings.push(SettingView { key: key@, value: value@ }),
            contains_key(final(self)@.settings, key@),
            value_of_key(final(self)@.settings, key@) == value@,
    {
        let m = self.settings.len();
        let mut i: usize = 0;
        while i < m
            invariant
                self.wf(),
                self@ == old(self)@,
                m == self.settings@.len(),
                i <= m,
                forall|k: int| 0 <= k < i ==> self.settings@[k]@.key != key@,
            decreases m - i,
        {
            if self.settings[i].key == *key {
                proof {
                    lemma_idx_of_key_is(self@.settings, key@, i as int);
                }
                let entry = Setting { key: key.clone(), value: value.clone() };
                proof {
                    lemma_setting_views_update(self.settings@, i as int, entry);
                }
                let ghost pre = self@.settings;
                self.settings[i] = entry;
                proof {
                    assert forall|p: int, q: int|
                        0 <= p < q < final(self)@.settings.len() implies final(self)@.settings[p].key != final(self)@.settings[q].key by {
                        assert(final(self)@.settings[p].key == pre[p].key);
                        assert(final(self)@.settings[q].key == pre[q].key);
                    }
                    lemma_idx_of_key_is(final(self)@.settings, key@, i as int);
                }
                return Ok(());
            }
            i += 1;
        }
        let entry = Setting { key: key.clone(), value: value.clone() };
        proof {
            lemma_setting_views_push(self.settings@, entry);
        }
        let ghost pre = self@.settings;
        self.settings.push(entry);
        proof {
            assert forall|p: int, q: int|
                0 <= p < q < final(self)@.settings.len() implies final(self)@.settings[p].key
                != final(self)@.settings[q].key by {
                if q < pre.len() {
                } else {
                    assert(final(self)@.settings[q].key == key@);
                }
            }
            lemma_idx_of_key_is(final(self)@.settings, key@, pre.len() as int);
        }
        Ok(())
    }

    /// All settings, in storage order; the order carries no meaning.
    pub fn get_all_settings(&self) -> (r: Vec<Setting>)
        ensures
            setting_views(r@) == self@.settings,
    {
        let m = self.settings.len();
        let mut out: Vec<Setting> = Vec::new();
        let mut i: usize = 0;
        while i < m
            invariant
                m == self.settings@.len(),
                i <= m,
                setting_views(out@) =~= self@.settings.subrange(0, i as int),
            decreases m - i,
        {
            let entry = self.settings[i].clone();
            proof {
                lemma_setting_views_push(out@, entry);
            }
            out.push(entry);
            proof {
                assert(setting_views(out@) =~= self@.settings.subrange(0, i + 1 as int));
            }
            i += 1;
        }
        proof {
            assert(self@.settings.subrange(0, m as int) =~= self@.settings);
        }
        out
    }
}

} // verus!
