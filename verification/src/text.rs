//! Character-sequence helpers: equality and lexicographic order on strings.

use vstd::prelude::*;

verus! {

/// Relies on `String::push` of std: appending one character to the end of
/// the string.
pub assume_specification[ String::push ](s: &mut String, c: char)
    ensures
        final(s)@ == old(s)@.push(c),
;

/// Whether `a` is lexicographically at most `b`, comparing scalar values.
pub open spec fn lex_le(a: Seq<char>, b: Seq<char>) -> bool
    decreases a.len(),
{
    if a.len() == 0 {
        true
    } else if b.len() == 0 {
        false
    } else if (a[0] as u32) < (b[0] as u32) {
        true
    } else if (a[0] as u32) > (b[0] as u32) {
        false
    } else {
        lex_le(a.skip(1), b.skip(1))
    }
}

/// The lexicographic order is total: one direction always holds.
pub proof fn lemma_lex_le_total(a: Seq<char>, b: Seq<char>)
    ensures
        lex_le(a, b) || lex_le(b, a),
    decreases a.len(),
{
    if a.len() == 0 || b.len() == 0 {
    } else if (a[0] as u32) == (b[0] as u32) {
        lemma_lex_le_total(a.skip(1), b.skip(1));
    }
}

/// The lexicographic order is reflexive.
pub proof fn lemma_lex_le_refl(a: Seq<char>)
    ensures
        lex_le(a, a),
    decreases a.len(),
{
    if a.len() > 0 {
        lemma_lex_le_refl(a.skip(1));
    }
}

/// The lexicographic order is transitive.
pub proof fn lemma_lex_le_trans(a: Seq<char>, b: Seq<char>, c: Seq<char>)
    requires
        lex_le(a, b),
        lex_le(b, c),
    ensures
        lex_le(a, c),
    decreases a.len(),
{
    if a.len() == 0 {
    } else if (a[0] as u32) < (b[0] as u32) {
        assert(b.len() > 0);
        assert(c.len() > 0);
    } else {
        assert(b.len() > 0);
        assert(c.len() > 0);
        if (b[0] as u32) < (c[0] as u32) {
        } else {
            lemma_lex_le_trans(a.skip(1), b.skip(1), c.skip(1));
        }
    }
}

/// Whether two strings hold the same characters.
pub fn str_eq(a: &str, b: &str) -> (r: bool)
    ensures
        r <==> a@ == b@,
    decreases a@.len(),
{
    let an = a.unicode_len();
    let bn = b.unicode_len();
    if an == 0 || bn == 0 {
        proof {
            if an == 0 && bn == 0 {
                assert(a@ =~= b@);
            }
        }
        an == bn
    } else if a.get_char(0) as u32 != b.get_char(0) as u32 {
        proof {
            assert(a@[0] != b@[0]) by {
                assert((a@[0] as u32) != (b@[0] as u32));
            }
        }
        false
    } else {
        let ra = a.substring_char(1, an);
        let rb = b.substring_char(1, bn);
        let r = str_eq(ra, rb);
        proof {
            assert(ra@ =~= a@.skip(1));
            assert(rb@ =~= b@.skip(1));
            assert(a@[0] as u32 == b@[0] as u32);
            assert(a@[0] == b@[0]) by {
                assert(a@[0] as u32 == b@[0] as u32);
                assert(a@[0] as char == b@[0] as char);
            }
            if r {
                assert(a@.skip(1) == b@.skip(1));
                assert(a@.len() == b@.len());
                assert forall|i: int| 0 <= i < a@.len() implies a@[i] == b@[i] by {
                    if i >= 1 {
                        assert(a@.skip(1)[i - 1] == b@.skip(1)[i - 1]);
                    }
                }
                assert(a@ =~= b@);
            } else {
                assert(a@.skip(1) != b@.skip(1));
                if a@ == b@ {
                    assert(a@.skip(1) =~= b@.skip(1));
                }
            }
        }
        r
    }
}

/// Whether `a` is lexicographically at most `b`.
pub fn str_lex_le(a: &str, b: &str) -> (r: bool)
    ensures
        r == lex_le(a@, b@),
    decreases a@.len(),
{
    let an = a.unicode_len();
    let bn = b.unicode_len();
    if an == 0 {
        true
    } else if bn == 0 {
        false
    } else {
        let ca = a.get_char(0) as u32;
        let cb = b.get_char(0) as u32;
        if ca < cb {
            true
        } else if ca > cb {
            false
        } else {
            let ra = a.substring_char(1, an);
            let rb = b.substring_char(1, bn);
            let r = str_lex_le(ra, rb);
            proof {
                assert(ra@ =~= a@.skip(1));
                assert(rb@ =~= b@.skip(1));
            }
            r
        }
    }
}

} // verus!
