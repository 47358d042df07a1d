//! The command surface: every operation the frontend, tray menu or global
//! shortcut can invoke on the registry.

use vstd::prelude::*;
use crate::host;
use crate::media::ext_for_mime;
use crate::media::extension_for;
use crate::note::{fresh_note_view, Note, NoteView, WindowLevel};
use crate::registry::{has_id, replaced, sorted_desc, views, NoteError, Registry};
use crate::window::{level_transition, level_transition_ops, StackOp};

verus! {

/// What a change notification reports about a note.
#[derive(Clone, Copy, Debug, PartialEq, Eq, Structural)]
pub enum NoteEventKind {
    Created,
    Updated,
    Deleted,
}

/// The kind tag carried in a `notes-changed` broadcast payload.
pub open spec fn kind_name(k: NoteEventKind) -> Seq<char> {
    match k {
        NoteEventKind::Created => "created"@,
        NoteEventKind::Updated => "updated"@,
        NoteEventKind::Deleted => "deleted"@,
    }
}

/// The kind tag as broadcast to frontend listeners.
pub fn event_kind_str(k: NoteEventKind) -> (r: &'static str)
    ensures
        r@ == kind_name(k),
{
    match k {
        NoteEventKind::Created => "created",
        NoteEventKind::Updated => "updated",
        NoteEventKind::Deleted => "deleted",
    }
}

/// The broadcast channel on which note changes are announced.
pub fn event_channel() -> (r: &'static str)
    ensures
        r@ == "notes-changed"@,
{
    "notes-changed"
}

/// Create a brand-new note with a fresh id and insert it.
pub fn create_note(reg: &mut Registry) -> (r: Note)
    requires
        old(reg).wf(),
    ensures
        final(reg).wf(),
        r@ == fresh_note_view(r@.id, r@.created_at),
        r@.id.len() == 36,
        has_id(final(reg)@, r@.id),
        !has_id(old(reg)@, r@.id) ==> final(reg)@ == old(reg)@.push(r@),
        has_id(old(reg)@, r@.id) ==> final(reg)@ == replaced(old(reg)@, r@),
{
    let n = Note::new();
    let r = n.clone();
    reg.upsert(n);
    r
}

/// Every note, most recently updated first.
pub fn list_notes(reg: &Registry) -> (r: Vec<Note>)
    ensures
        views(r@).to_multiset() == reg@.to_multiset(),
        sorted_desc(views(r@)),
{
    reg.list()
}

/// The note with the given id, or `NotFound`.
pub fn get_note(reg: &Registry, id: &str) -> (r: Result<Note, NoteError>)
    ensures
        r is Ok <==> has_id(reg@, id@),
        r matches Ok(n) ==> n@.id == id@ && reg@.contains(n@),
        (reg.wf() && r matches Ok(n)) ==> (forall|i: int|
            0 <= i < reg@.len() && reg@[i].id == id@ ==> reg@[i] == r->Ok_0@),
        r matches Err(e) ==> e == NoteError::NotFound,
{
    reg.get(id)
}

/// Fully replace the stored note carrying `note.id`; `NotFound` (and no
/// change) if the id is absent.
pub fn update_note(reg: &mut Registry, note: Note) -> (r: Result<(), NoteError>)
    requires
        old(reg).wf(),
    ensures
        final(reg).wf(),
        r is Ok <==> has_id(old(reg)@, note@.id),
        r is Ok ==> final(reg)@ == replaced(old(reg)@, note@),
        r matches Err(e) ==> final(reg)@ == old(reg)@ && e == NoteError::NotFound,
{
    reg.update(note)
}

/// Remove the note with the given id; removing an absent id is a no-op.
pub fn delete_note(reg: &mut Registry, id: &str)
    requires
        old(reg).wf(),
    ensures
        final(reg).wf(),
        !has_id(final(reg)@, id@),
        has_id(old(reg)@, id@) ==> exists|i: int|
            0 <= i < old(reg)@.len() && old(reg)@[i].id == id@ && final(reg)@ == old(
                reg,
            )@.remove(i),
        !has_id(old(reg)@, id@) ==> final(reg)@ == old(reg)@,
{
    reg.delete(id)
}

/// Replace the geometry of the note with the given id; its other fields,
/// timestamps included, stay untouched.
pub fn update_note_position(
    reg: &mut Registry,
    id: &str,
    x: i32,
    y: i32,
    width: i32,
    height: i32,
) -> (r: Result<(), NoteError>)
    requires
        old(reg).wf(),
    ensures
        final(reg).wf(),
        r is Ok <==> has_id(old(reg)@, id@),
        r is Ok ==> exists|i: int|
            0 <= i < old(reg)@.len() && old(reg)@[i].id == id@ && final(reg)@ == replaced(
                old(reg)@,
                (NoteView {
                    x: x as int,
                    y: y as int,
                    width: width as int,
                    height: height as int,
                    ..old(reg)@[i]
                }),
            ),
        r matches Err(e) ==> final(reg)@ == old(reg)@ && e == NoteError::NotFound,
{
    reg.set_geometry(id, x, y, width, height)
}

/// Move the note to the given stacking level, refresh its `updated_at`, and
/// hand back the window calls that realize the level (opposing attribute
/// cleared first).
pub fn set_window_level(reg: &mut Registry, id: &str, level: WindowLevel) -> (r: Result<
    Vec<StackOp>,
    NoteError,
>)
    requires
        old(reg).wf(),
    ensures
        final(reg).wf(),
        r is Ok <==> has_id(old(reg)@, id@),
        r matches Ok(ops) ==> ops@ == level_transition_ops(level),
        r is Ok ==> exists|i: int, t: Seq<char>|
            0 <= i < old(reg)@.len() && old(reg)@[i].id == id@ && t.len() > 0 && final(reg)@
                == replaced(
                old(reg)@,
                (NoteView { window_level: level, updated_at: t, ..old(reg)@[i] }),
            ),
        r matches Err(e) ==> final(reg)@ == old(reg)@ && e == NoteError::NotFound,
{
    let now = host::now_rfc3339();
    let ghost t = now@;
    match reg.set_level(id, level, now) {
        Ok(()) => {
            proof {
                let i = choose|i: int|
                    0 <= i < old(reg)@.len() && old(reg)@[i].id == id@ && reg@ == replaced(
                        old(reg)@,
                        (NoteView { window_level: level, updated_at: t, ..old(reg)@[i] }),
                    );
                assert(0 <= i < old(reg)@.len() && old(reg)@[i].id == id@ && reg@ == replaced(
                    old(reg)@,
                    (NoteView { window_level: level, updated_at: t, ..old(reg)@[i] }),
                ));
                assert(t.len() > 0);
            }
            Ok(level_transition(level))
        },
        Err(e) => Err(e),
    }
}

/// Decode a base64 image payload and pick the filename (fresh random stem,
/// extension from the mime table) under which the bytes are to be stored.
/// Malformed base64 fails with `DecodeFailure` and yields no bytes to write.
pub fn save_image(data: &str, mime_type: &str) -> (r: Result<(String, Vec<u8>), NoteError>)
    ensures
        r is Ok <==> host::base64_decoding(data@) is Some,
        r matches Ok(p) ==> p.1@ == host::base64_decoding(data@).unwrap(),
        r matches Ok(p) ==> p.0@.len() == 37 + ext_for_mime(mime_type@).len() && p.0@[36] == '.'
            && p.0@.subrange(37, p.0@.len() as int) == ext_for_mime(mime_type@),
        r matches Err(e) ==> e == NoteError::DecodeFailure,
{
    match host::base64_decode(data) {
        Some(bytes) => {
            let stem = host::fresh_uuid();
            let ext = extension_for(mime_type);
            let name = stem.concat(".").concat(ext);
            proof {
                reveal_strlit(".");
                assert(name@.len() == 37 + ext_for_mime(mime_type@).len());
                assert(name@[36] == '.');
                assert(name@.subrange(37, name@.len() as int) =~= ext_for_mime(mime_type@));
            }
            Ok((name, bytes))
        },
        None => Err(NoteError::DecodeFailure),
    }
}

} // verus!
