//! Persistence of the note collection as a snapshot text, and the
//! degradation rules on loading: a missing or malformed snapshot yields an
//! empty collection, never an error.

use vstd::prelude::*;
use crate::codec::{dec_notes, decode_notes, enc_notes, encode_notes, geom_in_range};
use crate::note::NoteView;
use crate::registry::{distinct_ids, views, Registry};

verus! {

/// The snapshot text for the whole registry. Every note of a registry has
/// geometry in the stored range, so the text always parses back exactly
/// (see `codec::lemma_snapshot_round_trip`).
pub fn save_notes(reg: &Registry) -> (r: String)
    ensures
        r@ == enc_notes(reg@),
        forall|i: int| 0 <= i < reg@.len() ==> geom_in_range(#[trigger] reg@[i]),
{
    let r = encode_notes(&reg.notes);
    proof {
        assert forall|i: int| 0 <= i < reg@.len() implies geom_in_range(#[trigger] reg@[i]) by {
            assert(reg@[i] == reg.notes@[i]@);
        }
    }
    r
}

/// Rebuild a registry from the snapshot file's text. A missing file
/// (`None`) or malformed text degrades to the empty collection; a
/// well-formed snapshot with distinct ids is restored exactly.
pub fn load_notes(text: Option<&str>) -> (r: Registry)
    ensures
        r.wf(),
        text is None ==> r@ == Seq::<NoteView>::empty(),
        (text matches Some(t) && dec_notes(t@) is None) ==> r@ == Seq::<NoteView>::empty(),
        (text matches Some(t) && dec_notes(t@) matches Some(vs) && distinct_ids(vs)) ==> r@
            == dec_notes(text->0@).unwrap(),
{
    match text {
        None => Registry::new(),
        Some(t) => match decode_notes(t) {
            None => Registry::new(),
            Some(v) => {
                let ghost vs = views(v@);
                let mut reg = Registry::new();
                proof {
                    assert(vs.take(0) =~= Seq::<NoteView>::empty());
                }
                let mut i: usize = 0;
                while i < v.len()
                    invariant
                        i <= v@.len(),
                        vs == views(v@),
                        vs.len() == v@.len(),
                        reg.wf(),
                        distinct_ids(vs) ==> reg@ == vs.take(i as int),
                    decreases v@.len() - i,
                {
                    let n = v[i].clone();
                    let ghost pre = reg@;
                    proof {
                        assert(n@ == vs[i as int]);
                        if distinct_ids(vs) {
                            assert(!crate::registry::has_id(pre, n@.id)) by {
                                if crate::registry::has_id(pre, n@.id) {
                                    let j = choose|j: int|
                                        0 <= j < pre.len() && pre[j].id == n@.id;
                                    assert(vs.take(i as int)[j] == vs[j]);
                                    assert(vs[j].id == vs[i as int].id);
                                }
                            }
                        }
                    }
                    reg.upsert(n);
                    proof {
                        if distinct_ids(vs) {
                            assert(reg@ =~= vs.take(i as int + 1));
                        }
                    }
                    i += 1;
                }
                proof {
                    assert(vs.take(v@.len() as int) =~= vs);
                }
                reg
            },
        },
    }
}

/// The persistence round trip: the snapshot text of a well-formed registry
/// parses back to exactly the registry's notes, so `save_notes` followed by
/// `load_notes` restores the same collection whatever order it was held in.
pub proof fn lemma_save_load_exact(reg_view: Seq<NoteView>)
    requires
        distinct_ids(reg_view),
        forall|i: int| 0 <= i < reg_view.len() ==> geom_in_range(#[trigger] reg_view[i]),
    ensures
        dec_notes(enc_notes(reg_view)) == Some(reg_view),
{
    crate::codec::lemma_snapshot_round_trip(reg_view);
}

} // verus!
