//! The note record: content, colors, geometry, stacking level, timestamps.

use vstd::prelude::*;
use crate::host;

verus! {

/// Stacking behaviour of a note's window: part of the normal z-order,
/// kept above all other windows, or pinned to the desktop behind them.
#[derive(Clone, Copy, Debug, PartialEq, Eq, Structural)]
pub enum WindowLevel {
    Normal,
    AlwaysOnTop,
    Desktop,
}

impl Default for WindowLevel {
    fn default() -> (r: Self)
        ensures
            r == WindowLevel::Normal,
    {
        WindowLevel::Normal
    }
}

/// The mathematical value of a [`Note`]: every text field as a character
/// sequence and the geometry as unbounded integers.
#[verifier::ext_equal]
pub ghost struct NoteView {
    pub id: Seq<char>,
    pub content: Seq<char>,
    pub bg_color: Seq<char>,
    pub fg_color: Seq<char>,
    pub x: int,
    pub y: int,
    pub width: int,
    pub height: int,
    pub window_level: WindowLevel,
    pub created_at: Seq<char>,
    pub updated_at: Seq<char>,
}

/// One sticky note. The `id` doubles as the identifier of the note's window;
/// timestamps are RFC 3339 strings, which order chronologically under the
/// lexicographic order on characters.
#[derive(Debug)]
pub struct Note {
    pub id: String,
    pub content: String,
    pub bg_color: String,
    pub fg_color: String,
    pub x: i32,
    pub y: i32,
    pub width: i32,
    pub height: i32,
    pub window_level: WindowLevel,
    pub created_at: String,
    pub updated_at: String,
}

impl View for Note {
    type V = NoteView;

    open spec fn view(&self) -> NoteView {
        NoteView {
            id: self.id@,
            content: self.content@,
            bg_color: self.bg_color@,
            fg_color: self.fg_color@,
            x: self.x as int,
            y: self.y as int,
            width: self.width as int,
            height: self.height as int,
            window_level: self.window_level,
            created_at: self.created_at@,
            updated_at: self.updated_at@,
        }
    }
}

impl Clone for Note {
    fn clone(&self) -> (r: Self)
        ensures
            r@ == self@,
    {
        let r = Note {
            id: self.id.clone(),
            content: self.content.clone(),
            bg_color: self.bg_color.clone(),
            fg_color: self.fg_color.clone(),
            x: self.x,
            y: self.y,
            width: self.width,
            height: self.height,
            window_level: self.window_level,
            created_at: self.created_at.clone(),
            updated_at: self.updated_at.clone(),
        };
        proof {
            assert(r@ =~= self@);
        }
        r
    }
}

/// The default field values of a freshly created note, with the given id and
/// creation instant.
pub open spec fn fresh_note_view(id: Seq<char>, now: Seq<char>) -> NoteView {
    NoteView {
        id: id,
        content: Seq::<char>::empty(),
        bg_color: "#0a0e14"@,
        fg_color: "#00ff88"@,
        x: 100,
        y: 100,
        width: 320,
        height: 280,
        window_level: WindowLevel::Normal,
        created_at: now,
        updated_at: now,
    }
}

impl Note {
    /// A note with the default content, colors, geometry and level, under the
    /// given id, created and last updated at the given instant.
    pub fn with_id_and_time(id: String, now: String) -> (r: Note)
        ensures
            r@ == fresh_note_view(id@, now@),
    {
        let created = now.clone();
        let r = Note {
            id: id,
            content: String::new(),
            bg_color: String::from_str("#0a0e14"),
            fg_color: String::from_str("#00ff88"),
            x: 100,
            y: 100,
            width: 320,
            height: 280,
            window_level: WindowLevel::Normal,
            created_at: created,
            updated_at: now,
        };
        proof {
            assert(r@ =~= fresh_note_view(r.id@, r.updated_at@));
        }
        r
    }

    /// A brand-new note: fresh random id, both timestamps set to now.
    pub fn new() -> (r: Note)
        ensures
            r@ == fresh_note_view(r@.id, r@.created_at),
            r@.id.len() == 36,
            r@.created_at == r@.updated_at,
    {
        let id = host::fresh_uuid();
        let now = host::now_rfc3339();
        Note::with_id_and_time(id, now)
    }
}

} // verus!
