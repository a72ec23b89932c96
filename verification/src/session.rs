//! Session bootstrap: at process start, every note flagged open gets its
//! window back. A failure to open one note's surface is the caller's to log
//! and skip; it must never keep the remaining notes from being restored.

use vstd::prelude::*;

use crate::models::{Note, NoteView};
use crate::db::note_views;
use crate::surfaces::{
    count_of_label, has_label, lemma_count_of_unique_labels, unique_labels, Surfaces,
    SurfacesView,
};

verus! {

/// Some note in `ns` is flagged open and has id `id`.
pub open spec fn open_note_present(ns: Seq<NoteView>, id: Seq<char>) -> bool {
    exists|k: int| 0 <= k < ns.len() && ns[k].is_open && ns[k].id == id
}

proof fn lemma_open_present_push(s: Seq<NoteView>, x: NoteView, id: Seq<char>)
    ensures
        open_note_present(s.push(x), id) <==> (open_note_present(s, id) || (x.is_open && x.id
            == id)),
{
    let t = s.push(x);
    if open_note_present(t, id) {
        let j = choose|j: int| 0 <= j < t.len() && t[j].is_open && t[j].id == id;
        if j < s.len() {
            assert(s[j] == t[j]);
        } else {
            assert(t[j] == x);
        }
    }
    if open_note_present(s, id) {
        let j = choose|j: int| 0 <= j < s.len() && s[j].is_open && s[j].id == id;
        assert(t[j] == s[j]);
    }
    if x.is_open && x.id == id {
        assert(t[s.len() as int] == x);
    }
}

proof fn lemma_has_label_push(s: Seq<Seq<char>>, x: Seq<char>, id: Seq<char>)
    ensures
        has_label(s.push(x), id) <==> (has_label(s, id) || x == id),
{
    let t = s.push(x);
    if has_label(t, id) {
        let j = choose|j: int| 0 <= j < t.len() && t[j] == id;
        if j < s.len() {
            assert(s[j] == t[j]);
        } else {
            assert(t[j] == x);
        }
    }
    if has_label(s, id) {
        let j = choose|j: int| 0 <= j < s.len() && s[j] == id;
        assert(t[j] == s[j]);
    }
    if x == id {
        assert(t[s.len() as int] == x);
    }
}

/// Reopen the window of every note flagged open. A note whose surface
/// already exists is only focused; afterwards the registry holds a surface
/// for an id exactly when it held one before or a note flagged open carries
/// that id.
pub fn restore_session(surfaces: &mut Surfaces, notes: &Vec<Note>)
    requires
        old(surfaces).wf(),
    ensures
        final(surfaces).wf(),
        final(surfaces)@.manager == old(surfaces)@.manager,
        final(surfaces)@.settings == old(surfaces)@.settings,
        forall|id: Seq<char>|
            has_label(final(surfaces)@.note_ids, id) <==> (has_label(
                old(surfaces)@.note_ids,
                id,
            ) || open_note_present(note_views(notes@), id)),
{
    let n = notes.len();
    let mut k: usize = 0;
    while k < n
        invariant
            surfaces.wf(),
            n == notes@.len(),
            k <= n,
            surfaces@.manager == old(surfaces)@.manager,
            surfaces@.settings == old(surfaces)@.settings,
            forall|id: Seq<char>|
                has_label(surfaces@.note_ids, id) <==> (has_label(old(surfaces)@.note_ids, id)
                    || open_note_present(note_views(notes@).subrange(0, k as int), id)),
        decreases n - k,
    {
        let ghost pre_ids = surfaces@.note_ids;
        let ghost nv = note_views(notes@);
        let ghost x = nv[k as int];
        if notes[k].is_open {
            let _ = surfaces.open_note_window(&notes[k]);
        }
        proof {
            assert(nv.subrange(0, k + 1 as int) =~= nv.subrange(0, k as int).push(x));
            assert forall|id: Seq<char>|
                has_label(surfaces@.note_ids, id) <==> (has_label(old(surfaces)@.note_ids, id)
                    || open_note_present(nv.subrange(0, k + 1 as int), id)) by {
                lemma_open_present_push(nv.subrange(0, k as int), x, id);
                if x.is_open {
                    lemma_has_label_push(pre_ids, x.id, id);
                }
            }
        }
        k += 1;
    }
    proof {
        assert(note_views(notes@).subrange(0, n as int) =~= note_views(notes@));
    }
}

/// From a fresh registry, a session restore yields exactly one surface per
/// note flagged open — one per note id, whatever the storage order — and
/// none for any other id.
pub proof fn lemma_restore_opens_exactly_open_notes(
    pre: SurfacesView,
    post: SurfacesView,
    ns: Seq<NoteView>,
)
    requires
        pre.note_ids.len() == 0,
        unique_labels(post.note_ids),
        forall|id: Seq<char>|
            has_label(post.note_ids, id) <==> (has_label(pre.note_ids, id) || open_note_present(
                ns,
                id,
            )),
    ensures
        forall|id: Seq<char>|
            open_note_present(ns, id) ==> count_of_label(post.note_ids, id) == 1,
        forall|id: Seq<char>|
            !open_note_present(ns, id) ==> count_of_label(post.note_ids, id) == 0,
{
    assert forall|id: Seq<char>|
        open_note_present(ns, id) implies count_of_label(post.note_ids, id) == 1 by {
        lemma_count_of_unique_labels(post.note_ids, id);
    }
    assert forall|id: Seq<char>|
        !open_note_present(ns, id) implies count_of_label(post.note_ids, id) == 0 by {
        lemma_count_of_unique_labels(post.note_ids, id);
    }
}

/// The notes a session restore must reopen: the ones flagged open, in
/// storage order.
pub fn notes_to_restore(notes: &Vec<Note>) -> (r: Vec<Note>)
    ensures
        note_views(r@) == note_views(notes@).filter(|n: NoteView| n.is_open),
{
    let n = notes.len();
    let mut out: Vec<Note> = Vec::new();
    proof {
        reveal(Seq::filter);
        assert(note_views(out@) =~= note_views(notes@).subrange(0, 0).filter(
            |n: NoteView| n.is_open,
        ));
    }
    let mut k: usize = 0;
    while k < n
        invariant
            n == notes@.len(),
            k <= n,
            note_views(out@) == note_views(notes@).subrange(0, k as int).filter(
                |n: NoteView| n.is_open,
            ),
        decreases n - k,
    {
        let ghost nv = note_views(notes@);
        let ghost prefix = nv.subrange(0, k as int);
        let ghost pre_out = note_views(out@);
        if notes[k].is_open {
            let picked = notes[k].clone();
            proof {
                assert(note_views(out@.push(picked)) =~= note_views(out@).push(picked@));
            }
            out.push(picked);
        }
        proof {
            reveal(Seq::filter);
            let longer = nv.subrange(0, k + 1 as int);
            assert(longer.drop_last() =~= prefix);
            assert(longer.last() == nv[k as int]);
            if nv[k as int].is_open {
                assert(note_views(out@) =~= prefix.filter(|n: NoteView| n.is_open).push(
                    nv[k as int],
                ));
            }
            assert(note_views(out@) =~= longer.filter(|n: NoteView| n.is_open));
        }
        k += 1;
    }
    proof {
        assert(note_views(notes@).subrange(0, n as int) =~= note_views(notes@));
    }
    out
}

} // verus!
