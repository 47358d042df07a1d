//! The in-memory note registry: the id-to-note mapping that is the single
//! source of truth for a running session.

use vstd::prelude::*;
use vstd::multiset::Multiset;
use vstd::seq_lib::{to_multiset_build, to_multiset_remove, to_multiset_contains};
use crate::note::{Note, NoteView, WindowLevel};
use crate::text::{lex_le, str_eq, str_lex_le, lemma_lex_le_total, lemma_lex_le_trans, lemma_lex_le_refl};

verus! {

/// The closed set of failures a command can report.
#[derive(Clone, Copy, Debug, PartialEq, Eq, Structural)]
pub enum NoteError {
    /// The operation referenced an id absent from the registry.
    NotFound,
    /// The registry lock was unavailable.
    LockFailure,
    /// A file or window operation failed.
    IOFailure,
    /// Malformed base64 input.
    DecodeFailure,
}

/// The values of a sequence of notes.
pub open spec fn views(s: Seq<Note>) -> Seq<NoteView> {
    s.map_values(|n: Note| n@)
}

/// Whether some note in `s` carries the id `id`.
pub open spec fn has_id(s: Seq<NoteView>, id: Seq<char>) -> bool {
    exists|i: int| 0 <= i < s.len() && s[i].id == id
}

/// Pairwise-distinct ids.
pub open spec fn distinct_ids(s: Seq<NoteView>) -> bool {
    forall|i: int, j: int| 0 <= i < s.len() && 0 <= j < s.len() && i != j ==> s[i].id != s[j].id
}

/// `s` with every note of id `v.id` replaced by `v` (there is at most one
/// under `distinct_ids`).
pub open spec fn replaced(s: Seq<NoteView>, v: NoteView) -> Seq<NoteView> {
    s.map_values(|o: NoteView| if o.id == v.id { v } else { o })
}

/// Descending order on the `updated_at` timestamps.
pub open spec fn sorted_desc(s: Seq<NoteView>) -> bool {
    forall|i: int, j: int| 0 <= i < j < s.len() ==> lex_le(s[j].updated_at, s[i].updated_at)
}

/// The registry: every live note, in insertion order, with distinct ids.
pub struct Registry {
    pub notes: Vec<Note>,
}

impl View for Registry {
    type V = Seq<NoteView>;

    open spec fn view(&self) -> Seq<NoteView> {
        views(self.notes@)
    }
}

proof fn lemma_views_push(s: Seq<Note>, n: Note)
    ensures
        views(s.push(n)) =~= views(s).push(n@),
{
}

proof fn lemma_views_remove(s: Seq<Note>, i: int)
    requires
        0 <= i < s.len(),
    ensures
        views(s.remove(i)) =~= views(s).remove(i),
{
}

proof fn lemma_views_insert(s: Seq<Note>, i: int, n: Note)
    requires
        0 <= i <= s.len(),
    ensures
        views(s.insert(i, n)) =~= views(s).insert(i, n@),
{
}

impl Registry {
    /// Well-formed: no two notes share an id.
    pub open spec fn wf(self) -> bool {
        distinct_ids(self@)
    }

    /// An empty registry.
    pub fn new() -> (r: Registry)
        ensures
            r@ == Seq::<NoteView>::empty(),
            r.wf(),
    {
        let r = Registry { notes: Vec::new() };
        proof {
            assert(r@ =~= Seq::<NoteView>::empty());
        }
        r
    }

    /// The index of the note with the given id, if any.
    fn find(&self, id: &str) -> (r: Option<usize>)
        ensures
            match r {
                Some(i) => i < self@.len() && self@[i as int].id == id@,
                None => !has_id(self@, id@),
            },
    {
        let mut i: usize = 0;
        while i < self.notes.len()
            invariant
                i <= self@.len(),
                self@.len() == self.notes@.len(),
                forall|j: int| 0 <= j < i ==> self@[j].id != id@,
            decreases self.notes@.len() - i,
        {
            if str_eq(self.notes[i].id.as_str(), id) {
                return Some(i);
            }
            i += 1;
        }
        None
    }

    /// The note with the given id, or `NotFound`.
    pub fn get(&self, id: &str) -> (r: Result<Note, NoteError>)
        ensures
            r is Ok <==> has_id(self@, id@),
            r matches Ok(n) ==> n@.id == id@ && self@.contains(n@),
            (self.wf() && r matches Ok(n)) ==> (forall|i: int|
                0 <= i < self@.len() && self@[i].id == id@ ==> self@[i] == r->Ok_0@),
            r matches Err(e) ==> e == NoteError::NotFound,
    {
        match self.find(id) {
            Some(i) => {
                let n = self.notes[i].clone();
                proof {
                    assert(self@[i as int] == n@);
                    assert(self@.contains(n@));
                }
                Ok(n)
            },
            None => Err(NoteError::NotFound),
        }
    }

    /// Insert the note, replacing any note that already carries its id.
    pub fn upsert(&mut self, note: Note)
        requires
            old(self).wf(),
        ensures
            final(self).wf(),
            has_id(final(self)@, note@.id),
            has_id(old(self)@, note@.id) ==> final(self)@ == replaced(old(self)@, note@),
            !has_id(old(self)@, note@.id) ==> final(self)@ == old(self)@.push(note@),
    {
        let ghost pre = self@;
        match self.find(note.id.as_str()) {
            Some(i) => {
                let ghost v = note@;
                let ghost pre_notes = self.notes@;
                self.notes.remove(i);
                self.notes.insert(i, note);
                proof {
                    lemma_views_remove(pre_notes, i as int);
                    lemma_views_insert(pre_notes.remove(i as int), i as int, note);
                    assert(self@ =~= pre.remove(i as int).insert(i as int, v));
                    self.lemma_replace_at(pre, i as int, v);
                }
            },
            None => {
                self.notes.push(note);
                proof {
                    assert(self@ =~= pre.push(note@));
                    assert(forall|k: int| 0 <= k < pre.len() ==> self@[k] == pre[k]);
                    assert(self@[pre.len() as int] == note@);
                    assert(self.wf());
                }
            },
        }
    }

    proof fn lemma_replace_at(&self, pre: Seq<NoteView>, i: int, v: NoteView)
        requires
            distinct_ids(pre),
            0 <= i < pre.len(),
            pre[i].id == v.id,
            self@ =~= pre.remove(i).insert(i, v),
        ensures
            self@ == replaced(pre, v),
            self.wf(),
            has_id(self@, v.id),
    {
        assert forall|k: int| 0 <= k < pre.len() implies self@[k] == (if pre[k].id == v.id {
            v
        } else {
            pre[k]
        }) by {
            if k < i {
                assert(pre.remove(i).insert(i, v)[k] == pre[k]);
                assert(pre[k].id != pre[i].id);
            } else if k == i {
                assert(pre.remove(i).insert(i, v)[k] == v);
            } else {
                assert(pre.remove(i).insert(i, v)[k] == pre[k]);
                assert(pre[k].id != pre[i].id);
            }
        }
        assert(self@ =~= replaced(pre, v));
        assert(distinct_ids(self@));
        assert(self@[i].id == v.id);
    }

    /// Replace the stored note carrying `note.id`; `NotFound` if absent,
    /// leaving the registry unchanged.
    pub fn update(&mut self, note: Note) -> (r: Result<(), NoteError>)
        requires
            old(self).wf(),
        ensures
            final(self).wf(),
            r is Ok <==> has_id(old(self)@, note@.id),
            r is Ok ==> final(self)@ == replaced(old(self)@, note@),
            r matches Err(e) ==> final(self)@ == old(self)@ && e == NoteError::NotFound,
    {
        let ghost pre = self@;
        match self.find(note.id.as_str()) {
            Some(i) => {
                let ghost v = note@;
                let ghost pre_notes = self.notes@;
                self.notes.remove(i);
                self.notes.insert(i, note);
                proof {
                    lemma_views_remove(pre_notes, i as int);
                    lemma_views_insert(pre_notes.remove(i as int), i as int, note);
                    assert(self@ =~= pre.remove(i as int).insert(i as int, v));
                    self.lemma_replace_at(pre, i as int, v);
                }
                Ok(())
            },
            None => Err(NoteError::NotFound),
        }
    }

    /// Remove the note with the given id; removing an absent id is a no-op.
    pub fn delete(&mut self, id: &str)
        requires
            old(self).wf(),
        ensures
            final(self).wf(),
            !has_id(final(self)@, id@),
            has_id(old(self)@, id@) ==> exists|i: int|
                0 <= i < old(self)@.len() && old(self)@[i].id == id@ && final(self)@
                    == old(self)@.remove(i),
            !has_id(old(self)@, id@) ==> final(self)@ == old(self)@,
    {
        let ghost pre = self@;
        match self.find(id) {
            Some(i) => {
                let ghost pre_notes = self.notes@;
                self.notes.remove(i);
                proof {
                    lemma_views_remove(pre_notes, i as int);
                    assert(self@ =~= pre.remove(i as int));
                    assert forall|k: int| 0 <= k < self@.len() implies self@[k].id != id@ by {
                        if k < i {
                            assert(self@[k] == pre[k]);
                        } else {
                            assert(self@[k] == pre[k + 1]);
                        }
                    }
                    assert(self.wf()) by {
                        assert forall|p: int, q: int|
                            0 <= p < self@.len() && 0 <= q < self@.len() && p != q implies self@[p].id
                            != self@[q].id by {
                            let pp = if p < i { p } else { p + 1 };
                            let qq = if q < i { q } else { q + 1 };
                            assert(self@[p] == pre[pp]);
                            assert(self@[q] == pre[qq]);
                        }
                    }
                }
            },
            None => {},
        }
    }

    /// Replace the geometry of the note with the given id, leaving every
    /// other field (the timestamps included) untouched.
    pub fn set_geometry(&mut self, id: &str, x: i32, y: i32, width: i32, height: i32) -> (r: Result<
        (),
        NoteError,
    >)
        requires
            old(self).wf(),
        ensures
            final(self).wf(),
            r is Ok <==> has_id(old(self)@, id@),
            r is Ok ==> exists|i: int|
                0 <= i < old(self)@.len() && old(self)@[i].id == id@ && final(self)@ == replaced(
                    old(self)@,
                    (NoteView {
                        x: x as int,
                        y: y as int,
                        width: width as int,
                        height: height as int,
                        ..old(self)@[i]
                    }),
                ),
            r matches Err(e) ==> final(self)@ == old(self)@ && e == NoteError::NotFound,
    {
        let ghost pre = self@;
        match self.find(id) {
            Some(i) => {
                let ghost pre_notes = self.notes@;
                let mut n = self.notes.remove(i);
                n.x = x;
                n.y = y;
                n.width = width;
                n.height = height;
                let ghost v = n@;
                self.notes.insert(i, n);
                proof {
                    assert(v =~= (NoteView {
                        x: x as int,
                        y: y as int,
                        width: width as int,
                        height: height as int,
                        ..pre[i as int]
                    }));
                    lemma_views_remove(pre_notes, i as int);
                    lemma_views_insert(pre_notes.remove(i as int), i as int, n);
                    assert(self@ =~= pre.remove(i as int).insert(i as int, v));
                    self.lemma_replace_at(pre, i as int, v);
                }
                Ok(())
            },
            None => Err(NoteError::NotFound),
        }
    }

    /// Replace the stacking level of the note with the given id and refresh
    /// its `updated_at` timestamp to `now`.
    pub fn set_level(&mut self, id: &str, level: WindowLevel, now: String) -> (r:
        Result<(), NoteError>)
        requires
            old(self).wf(),
        ensures
            final(self).wf(),
            r is Ok <==> has_id(old(self)@, id@),
            r is Ok ==> exists|i: int|
                0 <= i < old(self)@.len() && old(self)@[i].id == id@ && final(self)@ == replaced(
                    old(self)@,
                    (NoteView { window_level: level, updated_at: now@, ..old(self)@[i] }),
                ),
            r matches Err(e) ==> final(self)@ == old(self)@ && e == NoteError::NotFound,
    {
        let ghost pre = self@;
        match self.find(id) {
            Some(i) => {
                let ghost pre_notes = self.notes@;
                let mut n = self.notes.remove(i);
                n.window_level = level;
                n.updated_at = now;
                let ghost v = n@;
                self.notes.insert(i, n);
                proof {
                    assert(v =~= (NoteView {
                        window_level: level,
                        updated_at: v.updated_at,
                        ..pre[i as int]
                    }));
                    lemma_views_remove(pre_notes, i as int);
                    lemma_views_insert(pre_notes.remove(i as int), i as int, n);
                    assert(self@ =~= pre.remove(i as int).insert(i as int, v));
                    self.lemma_replace_at(pre, i as int, v);
                }
                Ok(())
            },
            None => Err(NoteError::NotFound),
        }
    }

    /// Every note, most recently updated first.
    pub fn list(&self) -> (r: Vec<Note>)
        ensures
            views(r@).to_multiset() == self@.to_multiset(),
            sorted_desc(views(r@)),
    {
        broadcast use vstd::seq_lib::group_to_multiset_ensures;
        broadcast use vstd::multiset::group_multiset_axioms;

        let mut rem: Vec<Note> = Vec::new();
        let mut i: usize = 0;
        while i < self.notes.len()
            invariant
                i <= self.notes@.len(),
                rem@.len() == i,
                views(rem@) =~= self@.subrange(0, i as int),
            decreases self.notes@.len() - i,
        {
            let n = self.notes[i].clone();
            let ghost pre_rem = rem@;
            rem.push(n);
            proof {
                assert(rem@ == pre_rem.push(n));
                assert forall|k: int| 0 <= k < i as int + 1 implies views(rem@)[k] == self@.subrange(
                    0,
                    i as int + 1,
                )[k] by {
                    if k < i as int {
                        assert(rem@[k] == pre_rem[k]);
                        assert(views(pre_rem)[k] == self@.subrange(0, i as int)[k]);
                    } else {
                        assert(pre_rem.len() == i as int);
                        assert(rem@[k] == n);
                    }
                }
                assert(views(rem@) =~= self@.subrange(0, i as int + 1));
            }
            i += 1;
        }
        proof {
            assert(views(rem@) =~= self@);
        }
        let mut out: Vec<Note> = Vec::new();
        proof {
            assert(views(out@).to_multiset().add(views(rem@).to_multiset())
                =~= self@.to_multiset());
        }
        while rem.len() > 0
            invariant
                views(out@).to_multiset().add(views(rem@).to_multiset()) == self@.to_multiset(),
                sorted_desc(views(out@)),
                forall|p: int, q: int|
                    0 <= p < out@.len() && 0 <= q < rem@.len() ==> lex_le(
                        views(rem@)[q].updated_at,
                        views(out@)[p].updated_at,
                    ),
            decreases rem@.len(),
        {
            let mut m: usize = 0;
            let mut j: usize = 1;
            proof {
                lemma_lex_le_refl(views(rem@)[0].updated_at);
            }
            while j < rem.len()
                invariant
                    rem@.len() > 0,
                    m < j,
                    j <= rem@.len(),
                    forall|k: int|
                        0 <= k < j ==> lex_le(
                            views(rem@)[k].updated_at,
                            views(rem@)[m as int].updated_at,
                        ),
                decreases rem@.len() - j,
            {
                if str_lex_le(rem[m].updated_at.as_str(), rem[j].updated_at.as_str()) {
                    let ghost pm = m as int;
                    m = j;
                    proof {
                        assert forall|k: int|
                            0 <= k < j + 1 implies lex_le(
                            views(rem@)[k].updated_at,
                            views(rem@)[m as int].updated_at,
                        ) by {
                            if k < j {
                                lemma_lex_le_trans(
                                    views(rem@)[k].updated_at,
                                    views(rem@)[pm].updated_at,
                                    views(rem@)[m as int].updated_at,
                                );
                            } else {
                                lemma_lex_le_refl(views(rem@)[m as int].updated_at);
                            }
                        }
                    }
                } else {
                    proof {
                        lemma_lex_le_total(
                            views(rem@)[m as int].updated_at,
                            views(rem@)[j as int].updated_at,
                        );
                    }
                }
                j += 1;
            }
            let ghost pre_rem = rem@;
            let ghost pre_out = out@;
            let n = rem.remove(m);
            out.push(n);
            proof {
                let ghost vrem = views(pre_rem);
                let ghost vout = views(pre_out);
                assert(vrem[m as int] == n@);
                assert(vrem.contains(n@)) by {
                    assert(vrem[m as int] == n@);
                }
                lemma_views_remove(pre_rem, m as int);
                lemma_views_push(pre_out, n);
                assert(views(rem@) == vrem.remove(m as int));
                assert(views(out@) == vout.push(n@));
                to_multiset_build(vout, n@);
                to_multiset_remove(vrem, m as int);
                assert(vout.push(n@).to_multiset() =~= vout.to_multiset().insert(n@));
                assert(vrem.remove(m as int).to_multiset() =~= vrem.to_multiset().remove(
                    vrem[m as int],
                ));
                to_multiset_contains(vrem, n@);
                assert(vrem.to_multiset().count(n@) >= 1);
                assert(vout.to_multiset().insert(n@).add(vrem.to_multiset().remove(n@))
                    =~= vout.to_multiset().add(vrem.to_multiset()));
                assert(views(out@).to_multiset().add(views(rem@).to_multiset())
                    == self@.to_multiset());
                assert forall|p: int, q: int|
                    0 <= p < out@.len() && 0 <= q < rem@.len() implies lex_le(
                    views(rem@)[q].updated_at,
                    views(out@)[p].updated_at,
                ) by {
                    let qq = if q < m { q } else { q + 1 };
                    assert(views(rem@)[q] == views(pre_rem)[qq]);
                    if p < pre_out.len() {
                        assert(views(out@)[p] == views(pre_out)[p]);
                    } else {
                        assert(views(out@)[p] == n@);
                    }
                }
                assert(sorted_desc(views(out@)));
            }
        }
        proof {
            assert(views(rem@).to_multiset() =~= Multiset::<NoteView>::empty());
            assert(views(out@).to_multiset() =~= self@.to_multiset());
        }
        out
    }

    /// The most recently updated note, if the registry is not empty.
    pub fn most_recent(&self) -> (r: Option<Note>)
        ensures
            r is Some <==> self@.len() > 0,
            r matches Some(n) ==> self@.contains(n@) && forall|i: int|
                0 <= i < self@.len() ==> lex_le(self@[i].updated_at, n@.updated_at),
    {
        if self.notes.len() == 0 {
            return None;
        }
        let mut m: usize = 0;
        let mut j: usize = 1;
        proof {
            lemma_lex_le_refl(self@[0].updated_at);
        }
        while j < self.notes.len()
            invariant
                self@.len() == self.notes@.len(),
                self.notes@.len() > 0,
                m < j,
                j <= self@.len(),
                forall|k: int| 0 <= k < j ==> lex_le(self@[k].updated_at, self@[m as int].updated_at),
            decreases self@.len() - j,
        {
            if str_lex_le(self.notes[m].updated_at.as_str(), self.notes[j].updated_at.as_str()) {
                let ghost pm = m as int;
                m = j;
                proof {
                    assert forall|k: int|
                        0 <= k < j + 1 implies lex_le(
                        self@[k].updated_at,
                        self@[m as int].updated_at,
                    ) by {
                        if k < j {
                            lemma_lex_le_trans(
                                self@[k].updated_at,
                                self@[pm].updated_at,
                                self@[m as int].updated_at,
                            );
                        } else {
                            lemma_lex_le_refl(self@[m as int].updated_at);
                        }
                    }
                }
            } else {
                proof {
                    lemma_lex_le_total(self@[m as int].updated_at, self@[j as int].updated_at);
                }
            }
            j += 1;
        }
        let n = self.notes[m].clone();
        proof {
            assert(self@[m as int] == n@);
            assert(self@.contains(n@));
        }
        Some(n)
    }
}

/// Creations accumulate: inserting a note whose id is not yet present
/// appends it and keeps every id distinct. So a run of creations whose
/// fresh ids never collide leaves exactly those notes, with pairwise
/// distinct ids.
pub proof fn lemma_fresh_insert_distinct(s: Seq<NoteView>, v: NoteView)
    requires
        distinct_ids(s),
        !has_id(s, v.id),
    ensures
        distinct_ids(s.push(v)),
        s.push(v).len() == s.len() + 1,
        forall|i: int| 0 <= i < s.len() ==> s.push(v)[i] == s[i],
        s.push(v)[s.len() as int] == v,
{
    assert forall|i: int, j: int|
        0 <= i < s.push(v).len() && 0 <= j < s.push(v).len() && i != j implies s.push(v)[i].id
        != s.push(v)[j].id by {
        if i < s.len() && j < s.len() {
        } else if i < s.len() {
            assert(s.push(v)[j] == v);
            assert(s.push(v)[i] == s[i]);
        } else {
            assert(s.push(v)[i] == v);
            assert(s.push(v)[j] == s[j]);
        }
    }
}

/// A listing that is a permutation of the registry holds exactly the
/// registry's notes, and as many of them.
pub proof fn lemma_permutation_exact(orig: Seq<NoteView>, listed: Seq<NoteView>)
    requires
        listed.to_multiset() == orig.to_multiset(),
    ensures
        forall|v: NoteView| listed.contains(v) <==> orig.contains(v),
        listed.len() == orig.len(),
{
    broadcast use vstd::seq_lib::group_to_multiset_ensures;

    assert(listed.len() == listed.to_multiset().len());
    assert(orig.len() == orig.to_multiset().len());
    assert forall|v: NoteView| listed.contains(v) <==> orig.contains(v) by {
        assert(listed.contains(v) <==> listed.to_multiset().count(v) > 0);
        assert(orig.contains(v) <==> orig.to_multiset().count(v) > 0);
    }
}

} // verus!
