//! The JSON snapshot codec: the notes file is a pretty-printed array of note
//! objects. Encoding and parsing are both defined here, and parsing an
//! encoded snapshot is proved to give the notes back exactly.

use vstd::prelude::*;
use crate::note::{Note, NoteView, WindowLevel};

verus! {

// ---------- string escaping ----------

/// How one character appears inside a JSON string literal.
pub open spec fn esc_char(c: char) -> Seq<char> {
    if c == '"' {
        seq!['\\', '"']
    } else if c == '\\' {
        seq!['\\', '\\']
    } else if c == '\n' {
        seq!['\\', 'n']
    } else if c == '\r' {
        seq!['\\', 'r']
    } else if c == '\t' {
        seq!['\\', 't']
    } else {
        seq![c]
    }
}

/// A whole string body, escaped.
pub open spec fn esc(s: Seq<char>) -> Seq<char>
    decreases s.len(),
{
    if s.len() == 0 {
        Seq::<char>::empty()
    } else {
        esc_char(s[0]) + esc(s.skip(1))
    }
}

/// A quoted, escaped JSON string.
pub open spec fn enc_str(s: Seq<char>) -> Seq<char> {
    seq!['"'] + esc(s) + seq!['"']
}

// ---------- numbers ----------

/// The decimal digit character for `d`.
pub open spec fn digit_char(d: int) -> char {
    if d == 0 {
        '0'
    } else if d == 1 {
        '1'
    } else if d == 2 {
        '2'
    } else if d == 3 {
        '3'
    } else if d == 4 {
        '4'
    } else if d == 5 {
        '5'
    } else if d == 6 {
        '6'
    } else if d == 7 {
        '7'
    } else if d == 8 {
        '8'
    } else {
        '9'
    }
}

/// The decimal digits of `n`, most significant first.
pub open spec fn enc_nat(n: nat) -> Seq<char>
    decreases n,
{
    if n < 10 {
        seq![digit_char(n as int)]
    } else {
        enc_nat(n / 10).push(digit_char((n % 10) as int))
    }
}

/// A (possibly negative) integer in decimal.
pub open spec fn enc_int(n: int) -> Seq<char> {
    if n < 0 {
        seq!['-'] + enc_nat((-n) as nat)
    } else {
        enc_nat(n as nat)
    }
}

// ---------- stacking levels ----------

/// The name under which a level is persisted.
pub open spec fn level_name(l: WindowLevel) -> Seq<char> {
    match l {
        WindowLevel::Normal => "normal"@,
        WindowLevel::AlwaysOnTop => "alwaysOnTop"@,
        WindowLevel::Desktop => "desktop"@,
    }
}

/// The level a persisted name denotes, if any.
pub open spec fn level_of_name(s: Seq<char>) -> Option<WindowLevel> {
    if s == "normal"@ {
        Some(WindowLevel::Normal)
    } else if s == "alwaysOnTop"@ {
        Some(WindowLevel::AlwaysOnTop)
    } else if s == "desktop"@ {
        Some(WindowLevel::Desktop)
    } else {
        None
    }
}

// ---------- the note object and the file ----------

/// One note as a pretty-printed JSON object, indented for its place in the
/// snapshot array.
pub open spec fn enc_note(n: NoteView) -> Seq<char> {
    "{\n    \"id\": "@ + enc_str(n.id) + ",\n    \"content\": "@ + enc_str(n.content)
        + ",\n    \"bg_color\": "@ + enc_str(n.bg_color) + ",\n    \"fg_color\": "@ + enc_str(
        n.fg_color,
    ) + ",\n    \"x\": "@ + enc_int(n.x) + ",\n    \"y\": "@ + enc_int(n.y) + ",\n    \"width\": "@
        + enc_int(n.width) + ",\n    \"height\": "@ + enc_int(n.height)
        + ",\n    \"window_level\": "@ + enc_str(level_name(n.window_level))
        + ",\n    \"created_at\": "@ + enc_str(n.created_at) + ",\n    \"updated_at\": "@ + enc_str(
        n.updated_at,
    ) + "\n  }"@
}

/// The rest of the array after its first element.
pub open spec fn enc_more(s: Seq<NoteView>) -> Seq<char>
    decreases s.len(),
{
    if s.len() == 0 {
        "\n]"@
    } else {
        ",\n  "@ + enc_note(s[0]) + enc_more(s.skip(1))
    }
}

/// The whole snapshot file.
pub open spec fn enc_notes(s: Seq<NoteView>) -> Seq<char> {
    if s.len() == 0 {
        "[]"@
    } else {
        "[\n  "@ + enc_note(s[0]) + enc_more(s.skip(1))
    }
}

// ---------- executable encoder ----------

proof fn lemma_esc_snoc(a: Seq<char>, c: char)
    ensures
        esc(a.push(c)) == esc(a) + esc_char(c),
    decreases a.len(),
{
    if a.len() == 0 {
        assert(a.push(c).skip(1) =~= Seq::<char>::empty());
        assert(a.push(c)[0] == c);
        assert(esc(Seq::<char>::empty()) == Seq::<char>::empty());
        assert(esc(a.push(c)) == esc_char(c) + esc(a.push(c).skip(1)));
        assert(esc(a.push(c)) =~= esc_char(c));
        assert(esc(a) + esc_char(c) =~= esc_char(c));
    } else {
        assert(a.push(c)[0] == a[0]);
        assert(a.push(c).skip(1) =~= a.skip(1).push(c));
        lemma_esc_snoc(a.skip(1), c);
        assert(esc(a.push(c)) == esc_char(a[0]) + (esc(a.skip(1)) + esc_char(c)));
        assert(esc_char(a[0]) + (esc(a.skip(1)) + esc_char(c)) =~= (esc_char(a[0]) + esc(
            a.skip(1),
        )) + esc_char(c));
    }
}

/// Append the escaped body of `s`.
fn esc_push(out: &mut String, s: &str)
    ensures
        final(out)@ == old(out)@ + esc(s@),
{
    let n = s.unicode_len();
    let mut i: usize = 0;
    proof {
        assert(s@.take(0) =~= Seq::<char>::empty());
        assert(esc(s@.take(0)) =~= Seq::<char>::empty());
        assert(out@ =~= old(out)@ + esc(s@.take(0)));
    }
    while i < n
        invariant
            i <= n,
            n == s@.len(),
            out@ == old(out)@ + esc(s@.take(i as int)),
        decreases n - i,
    {
        let c = s.get_char(i);
        if c == '"' {
            out.push('\\');
            out.push('"');
        } else if c == '\\' {
            out.push('\\');
            out.push('\\');
        } else if c == '\n' {
            out.push('\\');
            out.push('n');
        } else if c == '\r' {
            out.push('\\');
            out.push('r');
        } else if c == '\t' {
            out.push('\\');
            out.push('t');
        } else {
            out.push(c);
        }
        proof {
            lemma_esc_snoc(s@.take(i as int), c);
            assert(s@.take(i as int).push(c) =~= s@.take(i as int + 1));
            assert(out@ =~= old(out)@ + esc(s@.take(i as int + 1)));
        }
        i += 1;
    }
    proof {
        assert(s@.take(n as int) =~= s@);
    }
}

/// Append `s` as a quoted JSON string.
fn enc_str_push(out: &mut String, s: &str)
    ensures
        final(out)@ == old(out)@ + enc_str(s@),
{
    out.push('"');
    esc_push(out, s);
    out.push('"');
    proof {
        assert(out@ =~= old(out)@ + enc_str(s@));
    }
}

/// The decimal digit character for `d`.
fn digit_char_exec(d: u32) -> (r: char)
    requires
        d < 10,
    ensures
        r == digit_char(d as int),
{
    match d {
        0 => '0',
        1 => '1',
        2 => '2',
        3 => '3',
        4 => '4',
        5 => '5',
        6 => '6',
        7 => '7',
        8 => '8',
        _ => '9',
    }
}

/// Append the decimal digits of `n`.
fn enc_u32_push(out: &mut String, n: u32)
    ensures
        final(out)@ == old(out)@ + enc_nat(n as nat),
    decreases n,
{
    if n < 10 {
        out.push(digit_char_exec(n));
        proof {
            assert(out@ =~= old(out)@ + enc_nat(n as nat));
        }
    } else {
        enc_u32_push(out, n / 10);
        out.push(digit_char_exec(n % 10));
        proof {
            assert(out@ =~= old(out)@ + enc_nat(n as nat));
        }
    }
}

/// Append a signed integer in decimal.
fn enc_i32_push(out: &mut String, v: i32)
    ensures
        final(out)@ == old(out)@ + enc_int(v as int),
{
    if v < 0 {
        out.push('-');
        let m: u32 = (-(v as i64)) as u32;
        proof {
            assert(m as nat == (-(v as int)) as nat);
        }
        enc_u32_push(out, m);
        proof {
            assert(out@ =~= old(out)@ + enc_int(v as int));
        }
    } else {
        enc_u32_push(out, v as u32);
    }
}

/// The persisted name of a stacking level.
pub fn level_name_str(l: WindowLevel) -> (r: &'static str)
    ensures
        r@ == level_name(l),
{
    match l {
        WindowLevel::Normal => "normal",
        WindowLevel::AlwaysOnTop => "alwaysOnTop",
        WindowLevel::Desktop => "desktop",
    }
}

/// Append one note as a JSON object.
#[verifier::rlimit(80)]
fn enc_note_push(out: &mut String, n: &Note)
    ensures
        final(out)@ == old(out)@ + enc_note(n@),
{
    out.append("{\n    \"id\": ");
    enc_str_push(out, n.id.as_str());
    out.append(",\n    \"content\": ");
    enc_str_push(out, n.content.as_str());
    out.append(",\n    \"bg_color\": ");
    enc_str_push(out, n.bg_color.as_str());
    out.append(",\n    \"fg_color\": ");
    enc_str_push(out, n.fg_color.as_str());
    out.append(",\n    \"x\": ");
    enc_i32_push(out, n.x);
    out.append(",\n    \"y\": ");
    enc_i32_push(out, n.y);
    out.append(",\n    \"width\": ");
    enc_i32_push(out, n.width);
    out.append(",\n    \"height\": ");
    enc_i32_push(out, n.height);
    out.append(",\n    \"window_level\": ");
    enc_str_push(out, level_name_str(n.window_level));
    out.append(",\n    \"created_at\": ");
    enc_str_push(out, n.created_at.as_str());
    out.append(",\n    \"updated_at\": ");
    enc_str_push(out, n.updated_at.as_str());
    out.append("\n  }");
    proof {
        assert(out@ =~= old(out)@ + enc_note(n@));
    }
}

/// Encode the whole collection as the snapshot file's text.
pub fn encode_notes(notes: &Vec<Note>) -> (r: String)
    ensures
        r@ == enc_notes(crate::registry::views(notes@)),
{
    let ghost vs = crate::registry::views(notes@);
    if notes.len() == 0 {
        let r = String::from_str("[]");
        proof {
            assert(vs.len() == 0);
        }
        return r;
    }
    let mut out = String::new();
    out.append("[\n  ");
    enc_note_push(&mut out, &notes[0]);
    proof {
        assert(vs[0] == notes@[0]@);
        assert(out@ =~= "[\n  "@ + enc_note(vs[0]));
    }
    let mut i: usize = 1;
    while i < notes.len()
        invariant
            1 <= i <= notes@.len(),
            vs == crate::registry::views(notes@),
            vs.len() == notes@.len(),
            out@ + enc_more(vs.skip(i as int)) == enc_notes(vs),
        decreases notes@.len() - i,
    {
        let ghost pre = out@;
        out.append(",\n  ");
        enc_note_push(&mut out, &notes[i]);
        proof {
            let tail = vs.skip(i as int);
            assert(tail[0] == vs[i as int]);
            assert(vs[i as int] == notes@[i as int]@);
            assert(tail.skip(1) =~= vs.skip(i as int + 1));
            assert(enc_more(tail) == ",\n  "@ + enc_note(vs[i as int]) + enc_more(
                vs.skip(i as int + 1),
            ));
            assert(out@ =~= pre + (",\n  "@ + enc_note(vs[i as int])));
            assert(out@ + enc_more(vs.skip(i as int + 1)) =~= pre + enc_more(tail));
        }
        i += 1;
    }
    proof {
        assert(vs.skip(notes@.len() as int) =~= Seq::<NoteView>::empty());
        assert(enc_more(vs.skip(notes@.len() as int)) == "\n]"@);
    }
    out.append("\n]");
    proof {
        assert(out@ =~= enc_notes(vs));
    }
    out
}

// ---------- parsing ----------

/// Consume the exact literal `lit`, yielding the remainder.
pub open spec fn p_lit(s: Seq<char>, lit: Seq<char>) -> Option<Seq<char>>
    decreases lit.len(),
{
    if lit.len() == 0 {
        Some(s)
    } else if s.len() == 0 {
        None
    } else if s[0] == lit[0] {
        p_lit(s.skip(1), lit.skip(1))
    } else {
        None
    }
}

/// The character an escape code stands for.
pub open spec fn unesc_char(c: char) -> Option<char> {
    if c == '"' {
        Some('"')
    } else if c == '\\' {
        Some('\\')
    } else if c == 'n' {
        Some('\n')
    } else if c == 'r' {
        Some('\r')
    } else if c == 't' {
        Some('\t')
    } else {
        None
    }
}

/// Consume a string body up to its closing quote, undoing escapes.
pub open spec fn p_strbody(s: Seq<char>) -> Option<(Seq<char>, Seq<char>)>
    decreases s.len(),
{
    if s.len() == 0 {
        None
    } else if s[0] == '"' {
        Some((Seq::<char>::empty(), s.skip(1)))
    } else if s[0] == '\\' {
        if s.len() < 2 {
            None
        } else {
            match unesc_char(s[1]) {
                None => None,
                Some(u) => match p_strbody(s.skip(2)) {
                    None => None,
                    Some((t, r)) => Some((seq![u] + t, r)),
                },
            }
        }
    } else {
        match p_strbody(s.skip(1)) {
            None => None,
            Some((t, r)) => Some((seq![s[0]] + t, r)),
        }
    }
}

/// Consume a quoted JSON string.
pub open spec fn p_str(s: Seq<char>) -> Option<(Seq<char>, Seq<char>)> {
    if s.len() > 0 && s[0] == '"' {
        p_strbody(s.skip(1))
    } else {
        None
    }
}

/// The value of a decimal digit character.
pub open spec fn digit_val(c: char) -> Option<int> {
    if c == '0' {
        Some(0)
    } else if c == '1' {
        Some(1)
    } else if c == '2' {
        Some(2)
    } else if c == '3' {
        Some(3)
    } else if c == '4' {
        Some(4)
    } else if c == '5' {
        Some(5)
    } else if c == '6' {
        Some(6)
    } else if c == '7' {
        Some(7)
    } else if c == '8' {
        Some(8)
    } else if c == '9' {
        Some(9)
    } else {
        None
    }
}

/// Consume every leading digit, accumulating the value.
pub open spec fn p_digits(s: Seq<char>, acc: int) -> (int, Seq<char>)
    decreases s.len(),
{
    if s.len() > 0 && digit_val(s[0]) is Some {
        p_digits(s.skip(1), acc * 10 + digit_val(s[0]).unwrap())
    } else {
        (acc, s)
    }
}

/// Consume a non-empty run of digits.
pub open spec fn p_nat(s: Seq<char>) -> Option<(int, Seq<char>)> {
    if s.len() > 0 && digit_val(s[0]) is Some {
        Some(p_digits(s, 0))
    } else {
        None
    }
}

/// Consume an optionally negated run of digits.
pub open spec fn p_int(s: Seq<char>) -> Option<(int, Seq<char>)> {
    if s.len() > 0 && s[0] == '-' {
        match p_nat(s.skip(1)) {
            None => None,
            Some((v, r)) => Some((-v, r)),
        }
    } else {
        p_nat(s)
    }
}

/// Whether a value fits the stored geometry type.
pub open spec fn in_i32(v: int) -> bool {
    -2147483648 <= v <= 2147483647
}

/// Consume an integer, refusing one out of the stored range.
pub open spec fn p_i32(s: Seq<char>) -> Option<(int, Seq<char>)> {
    match p_int(s) {
        None => None,
        Some((v, r)) => if in_i32(v) {
            Some((v, r))
        } else {
            None
        },
    }
}

/// Consume a field literal followed by a string value.
pub open spec fn p_sfield(s: Seq<char>, lit: Seq<char>) -> Option<(Seq<char>, Seq<char>)> {
    match p_lit(s, lit) {
        None => None,
        Some(r) => p_str(r),
    }
}

/// Consume a field literal followed by an integer value.
pub open spec fn p_ifield(s: Seq<char>, lit: Seq<char>) -> Option<(int, Seq<char>)> {
    match p_lit(s, lit) {
        None => None,
        Some(r) => p_i32(r),
    }
}

/// Consume one note object.
pub open spec fn p_note(s: Seq<char>) -> Option<(NoteView, Seq<char>)> {
    match p_sfield(s, "{\n    \"id\": "@) {
        None => None,
        Some((id, s1)) => match p_sfield(s1, ",\n    \"content\": "@) {
            None => None,
            Some((content, s2)) => match p_sfield(s2, ",\n    \"bg_color\": "@) {
                None => None,
                Some((bg, s3)) => match p_sfield(s3, ",\n    \"fg_color\": "@) {
                    None => None,
                    Some((fg, s4)) => match p_ifield(s4, ",\n    \"x\": "@) {
                        None => None,
                        Some((x, s5)) => match p_ifield(s5, ",\n    \"y\": "@) {
                            None => None,
                            Some((y, s6)) => match p_ifield(s6, ",\n    \"width\": "@) {
                                None => None,
                                Some((w, s7)) => match p_ifield(s7, ",\n    \"height\": "@) {
                                    None => None,
                                    Some((h, s8)) => match p_sfield(
                                        s8,
                                        ",\n    \"window_level\": "@,
                                    ) {
                                        None => None,
                                        Some((nm, s9)) => match level_of_name(nm) {
                                            None => None,
                                            Some(lv) => match p_sfield(
                                                s9,
                                                ",\n    \"created_at\": "@,
                                            ) {
                                                None => None,
                                                Some((ca, s10)) => match p_sfield(
                                                    s10,
                                                    ",\n    \"updated_at\": "@,
                                                ) {
                                                    None => None,
                                                    Some((ua, s11)) => match p_lit(
                                                        s11,
                                                        "\n  }"@,
                                                    ) {
                                                        None => None,
                                                        Some(r) => Some(
                                                            (
                                                                NoteView {
                                                                    id: id,
                                                                    content: content,
                                                                    bg_color: bg,
                                                                    fg_color: fg,
                                                                    x: x,
                                                                    y: y,
                                                                    width: w,
                                                                    height: h,
                                                                    window_level: lv,
                                                                    created_at: ca,
                                                                    updated_at: ua,
                                                                },
                                                                r,
                                                            ),
                                                        ),
                                                    },
                                                },
                                            },
                                        },
                                    },
                                },
                            },
                        },
                    },
                },
            },
        },
    }
}

/// Consume the rest of the array after its first element.
pub open spec fn p_more(s: Seq<char>) -> Option<(Seq<NoteView>, Seq<char>)>
    decreases s.len(),
{
    if p_lit(s, "\n]"@) is Some {
        Some((Seq::<NoteView>::empty(), p_lit(s, "\n]"@).unwrap()))
    } else {
        match p_lit(s, ",\n  "@) {
            None => None,
            Some(s1) => match p_note(s1) {
                None => None,
                Some((v, r)) => if r.len() < s.len() {
                    match p_more(r) {
                        None => None,
                        Some((vs, rr)) => Some((seq![v] + vs, rr)),
                    }
                } else {
                    None
                },
            },
        }
    }
}

/// Consume a whole snapshot array.
pub open spec fn p_notes(s: Seq<char>) -> Option<(Seq<NoteView>, Seq<char>)> {
    if p_lit(s, "[]"@) is Some {
        Some((Seq::<NoteView>::empty(), p_lit(s, "[]"@).unwrap()))
    } else {
        match p_lit(s, "[\n  "@) {
            None => None,
            Some(s1) => match p_note(s1) {
                None => None,
                Some((v, r)) => match p_more(r) {
                    None => None,
                    Some((vs, rr)) => Some((seq![v] + vs, rr)),
                },
            },
        }
    }
}

/// The notes a snapshot text holds, if it is exactly a well-formed snapshot.
pub open spec fn dec_notes(s: Seq<char>) -> Option<Seq<NoteView>> {
    match p_notes(s) {
        None => None,
        Some((vs, r)) => if r.len() == 0 {
            Some(vs)
        } else {
            None
        },
    }
}

/// Whether a note's geometry fits the stored type.
pub open spec fn geom_in_range(n: NoteView) -> bool {
    in_i32(n.x) && in_i32(n.y) && in_i32(n.width) && in_i32(n.height)
}

// ---------- the round trip ----------

proof fn lemma_p_lit_round(lit: Seq<char>, rest: Seq<char>)
    ensures
        p_lit(lit + rest, lit) == Some(rest),
    decreases lit.len(),
{
    if lit.len() == 0 {
        assert(lit + rest =~= rest);
    } else {
        assert((lit + rest)[0] == lit[0]);
        assert((lit + rest).skip(1) =~= lit.skip(1) + rest);
        lemma_p_lit_round(lit.skip(1), rest);
    }
}

proof fn lemma_strbody_round(v: Seq<char>, rest: Seq<char>)
    ensures
        p_strbody(esc(v) + seq!['"'] + rest) == Some((v, rest)),
    decreases v.len(),
{
    let s = esc(v) + seq!['"'] + rest;
    if v.len() == 0 {
        assert(esc(v) == Seq::<char>::empty());
        assert(s =~= seq!['"'] + rest);
        assert(s[0] == '"');
        assert(s.skip(1) =~= rest);
        assert(p_strbody(s) == Some((Seq::<char>::empty(), rest)));
        assert(v =~= Seq::<char>::empty());
    } else {
        let c = v[0];
        let e = esc_char(c);
        assert(esc(v) == e + esc(v.skip(1)));
        lemma_strbody_round(v.skip(1), rest);
        if c == '"' || c == '\\' || c == '\n' || c == '\r' || c == '\t' {
            assert(e.len() == 2);
            assert(e[0] == '\\');
            assert(s[0] == '\\');
            assert(s.len() >= 2);
            assert(s[1] == e[1]);
            assert(unesc_char(e[1]) == Some(c));
            assert(s.skip(2) =~= esc(v.skip(1)) + seq!['"'] + rest);
            assert(p_strbody(s) == Some((seq![c] + v.skip(1), rest)));
            assert(seq![c] + v.skip(1) =~= v);
        } else {
            assert(e =~= seq![c]);
            assert(s[0] == c);
            assert(s.skip(1) =~= esc(v.skip(1)) + seq!['"'] + rest);
            assert(p_strbody(s) == Some((seq![c] + v.skip(1), rest)));
            assert(seq![c] + v.skip(1) =~= v);
        }
    }
}

proof fn lemma_str_round(v: Seq<char>, rest: Seq<char>)
    ensures
        p_str(enc_str(v) + rest) == Some((v, rest)),
{
    let s = enc_str(v) + rest;
    assert(s =~= seq!['"'] + (esc(v) + seq!['"'] + rest));
    assert(s[0] == '"');
    assert(s.skip(1) =~= esc(v) + seq!['"'] + rest);
    lemma_strbody_round(v, rest);
}

proof fn lemma_digit_char_val(d: int)
    requires
        0 <= d <= 9,
    ensures
        digit_val(digit_char(d)) == Some(d),
{
}

/// Every character of `enc_nat` is a digit.
proof fn lemma_enc_nat_digits(n: nat)
    ensures
        enc_nat(n).len() >= 1,
        forall|i: int| 0 <= i < enc_nat(n).len() ==> digit_val(enc_nat(n)[i]) is Some,
    decreases n,
{
    if n < 10 {
        lemma_digit_char_val(n as int);
    } else {
        lemma_enc_nat_digits(n / 10);
        lemma_digit_char_val((n % 10) as int);
        assert forall|i: int| 0 <= i < enc_nat(n).len() implies digit_val(enc_nat(n)[i]) is Some by {
            if i < enc_nat(n / 10).len() {
                assert(enc_nat(n)[i] == enc_nat(n / 10)[i]);
            } else {
                assert(enc_nat(n)[i] == digit_char((n % 10) as int));
            }
        }
    }
}

/// The value of a digit run, read left to right onto an accumulator.
pub open spec fn seq_val(acc: int, ds: Seq<char>) -> int
    decreases ds.len(),
{
    if ds.len() == 0 {
        acc
    } else {
        seq_val(acc * 10 + digit_val(ds[0]).unwrap(), ds.skip(1))
    }
}

proof fn lemma_digits_concat(ds: Seq<char>, rest: Seq<char>, acc: int)
    requires
        forall|i: int| 0 <= i < ds.len() ==> digit_val(ds[i]) is Some,
        rest.len() == 0 || digit_val(rest[0]) is None,
    ensures
        p_digits(ds + rest, acc) == (seq_val(acc, ds), rest),
    decreases ds.len(),
{
    if ds.len() == 0 {
        assert(ds + rest =~= rest);
    } else {
        assert((ds + rest)[0] == ds[0]);
        assert((ds + rest).skip(1) =~= ds.skip(1) + rest);
        assert(forall|i: int|
            0 <= i < ds.skip(1).len() ==> digit_val(#[trigger] ds.skip(1)[i]) is Some);
        lemma_digits_concat(ds.skip(1), rest, acc * 10 + digit_val(ds[0]).unwrap());
    }
}

proof fn lemma_seq_val_snoc(acc: int, a: Seq<char>, d: char)
    ensures
        seq_val(acc, a.push(d)) == seq_val(acc, a) * 10 + digit_val(d).unwrap(),
    decreases a.len(),
{
    if a.len() == 0 {
        assert(a.push(d)[0] == d);
        assert(a.push(d).skip(1) =~= Seq::<char>::empty());
        assert(seq_val(acc * 10 + digit_val(d).unwrap(), Seq::<char>::empty()) == acc * 10
            + digit_val(d).unwrap());
    } else {
        assert(a.push(d)[0] == a[0]);
        assert(a.push(d).skip(1) =~= a.skip(1).push(d));
        lemma_seq_val_snoc(acc * 10 + digit_val(a[0]).unwrap(), a.skip(1), d);
    }
}

proof fn lemma_enc_nat_val(n: nat)
    ensures
        seq_val(0, enc_nat(n)) == n,
    decreases n,
{
    if n < 10 {
        lemma_digit_char_val(n as int);
        assert(enc_nat(n)[0] == digit_char(n as int));
        assert(enc_nat(n).skip(1) =~= Seq::<char>::empty());
        assert(seq_val(0 * 10 + (n as int), Seq::<char>::empty()) == n);
    } else {
        lemma_enc_nat_val(n / 10);
        lemma_digit_char_val((n % 10) as int);
        lemma_seq_val_snoc(0, enc_nat(n / 10), digit_char((n % 10) as int));
        assert(seq_val(0, enc_nat(n)) == (n / 10) * 10 + (n % 10));
        assert((n / 10) * 10 + (n % 10) == n) by {
            vstd::arithmetic::div_mod::lemma_fundamental_div_mod(n as int, 10);
        }
    }
}

proof fn lemma_p_nat_round(n: nat, rest: Seq<char>)
    requires
        rest.len() == 0 || digit_val(rest[0]) is None,
    ensures
        p_nat(enc_nat(n) + rest) == Some((n as int, rest)),
{
    lemma_enc_nat_digits(n);
    lemma_digits_concat(enc_nat(n), rest, 0);
    lemma_enc_nat_val(n);
    assert((enc_nat(n) + rest)[0] == enc_nat(n)[0]);
}

proof fn lemma_p_i32_round(v: int, rest: Seq<char>)
    requires
        in_i32(v),
        rest.len() == 0 || digit_val(rest[0]) is None,
    ensures
        p_i32(enc_int(v) + rest) == Some((v, rest)),
{
    let s = enc_int(v) + rest;
    if v < 0 {
        assert(enc_int(v) == seq!['-'] + enc_nat((-v) as nat));
        assert(s[0] == '-');
        assert(s.skip(1) =~= enc_nat((-v) as nat) + rest);
        lemma_p_nat_round((-v) as nat, rest);
    } else {
        lemma_enc_nat_digits(v as nat);
        assert(s[0] == enc_nat(v as nat)[0]);
        assert(digit_val(s[0]) is Some);
        assert(s[0] != '-');
        lemma_p_nat_round(v as nat, rest);
    }
}

proof fn lemma_level_names(l: WindowLevel)
    ensures
        level_of_name(level_name(l)) == Some(l),
{
    reveal_strlit("normal");
    reveal_strlit("alwaysOnTop");
    reveal_strlit("desktop");
    assert("normal"@.len() == 6);
    assert("alwaysOnTop"@.len() == 11);
    assert("desktop"@.len() == 7);
}

proof fn lemma_p_sfield_round(lit: Seq<char>, v: Seq<char>, rest: Seq<char>)
    ensures
        p_sfield(lit + enc_str(v) + rest, lit) == Some((v, rest)),
{
    assert(lit + enc_str(v) + rest =~= lit + (enc_str(v) + rest));
    lemma_p_lit_round(lit, enc_str(v) + rest);
    lemma_str_round(v, rest);
}

proof fn lemma_p_ifield_round(lit: Seq<char>, v: int, rest: Seq<char>)
    requires
        in_i32(v),
        rest.len() == 0 || digit_val(rest[0]) is None,
    ensures
        p_ifield(lit + enc_int(v) + rest, lit) == Some((v, rest)),
{
    assert(lit + enc_int(v) + rest =~= lit + (enc_int(v) + rest));
    lemma_p_lit_round(lit, enc_int(v) + rest);
    lemma_p_i32_round(v, rest);
}

#[verifier::rlimit(100)]
proof fn lemma_p_note_round(n: NoteView, rest: Seq<char>)
    requires
        geom_in_range(n),
    ensures
        p_note(enc_note(n) + rest) == Some((n, rest)),
{
    reveal_strlit(",\n    \"y\": ");
    reveal_strlit(",\n    \"width\": ");
    reveal_strlit(",\n    \"height\": ");
    reveal_strlit(",\n    \"window_level\": ");
    let t11 = "\n  }"@ + rest;
    let t10 = ",\n    \"updated_at\": "@ + enc_str(n.updated_at) + t11;
    let t9 = ",\n    \"created_at\": "@ + enc_str(n.created_at) + t10;
    let t8 = ",\n    \"window_level\": "@ + enc_str(level_name(n.window_level)) + t9;
    let t7 = ",\n    \"height\": "@ + enc_int(n.height) + t8;
    let t6 = ",\n    \"width\": "@ + enc_int(n.width) + t7;
    let t5 = ",\n    \"y\": "@ + enc_int(n.y) + t6;
    let t4 = ",\n    \"x\": "@ + enc_int(n.x) + t5;
    let t3 = ",\n    \"fg_color\": "@ + enc_str(n.fg_color) + t4;
    let t2 = ",\n    \"bg_color\": "@ + enc_str(n.bg_color) + t3;
    let t1 = ",\n    \"content\": "@ + enc_str(n.content) + t2;
    let s = enc_note(n) + rest;
    assert(s =~= "{\n    \"id\": "@ + enc_str(n.id) + t1);
    lemma_p_sfield_round("{\n    \"id\": "@, n.id, t1);
    lemma_p_sfield_round(",\n    \"content\": "@, n.content, t2);
    lemma_p_sfield_round(",\n    \"bg_color\": "@, n.bg_color, t3);
    lemma_p_sfield_round(",\n    \"fg_color\": "@, n.fg_color, t4);
    assert(t5[0] == ',') by {
        assert(",\n    \"y\": "@.len() > 0);
    }
    assert(digit_val(t5[0]) is None);
    lemma_p_ifield_round(",\n    \"x\": "@, n.x, t5);
    assert(t6[0] == ',');
    assert(digit_val(t6[0]) is None);
    lemma_p_ifield_round(",\n    \"y\": "@, n.y, t6);
    assert(t7[0] == ',');
    assert(digit_val(t7[0]) is None);
    lemma_p_ifield_round(",\n    \"width\": "@, n.width, t7);
    assert(t8[0] == ',');
    assert(digit_val(t8[0]) is None);
    lemma_p_ifield_round(",\n    \"height\": "@, n.height, t8);
    lemma_p_sfield_round(",\n    \"window_level\": "@, level_name(n.window_level), t9);
    lemma_level_names(n.window_level);
    lemma_p_sfield_round(",\n    \"created_at\": "@, n.created_at, t10);
    lemma_p_sfield_round(",\n    \"updated_at\": "@, n.updated_at, t11);
    lemma_p_lit_round("\n  }"@, rest);
    assert(p_note(s) matches Some(p) && p.0 =~= n && p.1 == rest);
}

proof fn lemma_p_more_round(s: Seq<NoteView>, rest: Seq<char>)
    requires
        forall|i: int| 0 <= i < s.len() ==> geom_in_range(#[trigger] s[i]),
    ensures
        p_more(enc_more(s) + rest) == Some((s, rest)),
    decreases s.len(),
{
    reveal_strlit("\n]");
    reveal_strlit(",\n  ");
    let input = enc_more(s) + rest;
    if s.len() == 0 {
        assert(input =~= "\n]"@ + rest);
        lemma_p_lit_round("\n]"@, rest);
        assert(p_more(input) == Some((Seq::<NoteView>::empty(), rest)));
        assert(s =~= Seq::<NoteView>::empty());
    } else {
        let tail = enc_more(s.skip(1)) + rest;
        assert(input =~= ",\n  "@ + (enc_note(s[0]) + tail));
        assert(input[0] == ',');
        assert(p_lit(input, "\n]"@) is None) by {
            assert("\n]"@[0] == '\n');
        }
        lemma_p_lit_round(",\n  "@, enc_note(s[0]) + tail);
        lemma_p_note_round(s[0], tail);
        assert(enc_note(s[0]).len() > 0);
        assert(tail.len() < input.len());
        lemma_p_more_round(s.skip(1), rest);
        assert(p_more(input) == Some((seq![s[0]] + s.skip(1), rest)));
        assert(seq![s[0]] + s.skip(1) =~= s);
    }
}

// ---------- executable parser ----------

/// Consume the exact literal `lit`.
fn expect_lit<'a>(s: &'a str, lit: &str) -> (r: Option<&'a str>)
    ensures
        r is Some <==> p_lit(s@, lit@) is Some,
        r matches Some(rr) ==> rr@ == p_lit(s@, lit@).unwrap(),
    decreases lit@.len(),
{
    let ln = lit.unicode_len();
    let sn = s.unicode_len();
    if ln == 0 {
        Some(s)
    } else if sn == 0 {
        None
    } else if s.get_char(0) == lit.get_char(0) {
        let rs = s.substring_char(1, sn);
        let rl = lit.substring_char(1, ln);
        proof {
            assert(rs@ =~= s@.skip(1));
            assert(rl@ =~= lit@.skip(1));
        }
        expect_lit(rs, rl)
    } else {
        None
    }
}

/// Consume a string body up to its closing quote, appending the decoded
/// characters to `out`.
fn parse_strbody_into<'a>(s: &'a str, out: &mut String) -> (r: Option<&'a str>)
    ensures
        r is Some <==> p_strbody(s@) is Some,
        r matches Some(rr) ==> p_strbody(s@) matches Some(pv) && final(out)@ == old(out)@ + pv.0
            && rr@ == pv.1,
    decreases s@.len(),
{
    let n = s.unicode_len();
    if n == 0 {
        return None;
    }
    let c = s.get_char(0);
    if c == '"' {
        let rr = s.substring_char(1, n);
        proof {
            assert(rr@ =~= s@.skip(1));
            assert(out@ =~= old(out)@ + Seq::<char>::empty());
        }
        Some(rr)
    } else if c == '\\' {
        if n < 2 {
            return None;
        }
        let e = s.get_char(1);
        let u: char;
        if e == '"' {
            u = '"';
        } else if e == '\\' {
            u = '\\';
        } else if e == 'n' {
            u = '\n';
        } else if e == 'r' {
            u = '\r';
        } else if e == 't' {
            u = '\t';
        } else {
            return None;
        }
        proof {
            assert(unesc_char(s@[1]) == Some(u));
        }
        out.push(u);
        let ghost mid = out@;
        let tail = s.substring_char(2, n);
        proof {
            assert(tail@ =~= s@.skip(2));
        }
        match parse_strbody_into(tail, out) {
            None => None,
            Some(rr) => {
                proof {
                    let (t, _pr) = p_strbody(tail@).unwrap();
                    assert(out@ == mid + t);
                    assert(out@ =~= old(out)@ + (seq![u] + t));
                }
                Some(rr)
            },
        }
    } else {
        out.push(c);
        let ghost mid = out@;
        let tail = s.substring_char(1, n);
        proof {
            assert(tail@ =~= s@.skip(1));
        }
        match parse_strbody_into(tail, out) {
            None => None,
            Some(rr) => {
                proof {
                    let (t, _pr) = p_strbody(tail@).unwrap();
                    assert(out@ == mid + t);
                    assert(out@ =~= old(out)@ + (seq![s@[0]] + t));
                }
                Some(rr)
            },
        }
    }
}

/// Consume a quoted JSON string.
fn parse_string<'a>(s: &'a str) -> (r: Option<(String, &'a str)>)
    ensures
        r is Some <==> p_str(s@) is Some,
        r matches Some(p) ==> p_str(s@) matches Some(pv) && p.0@ == pv.0 && p.1@ == pv.1,
{
    let n = s.unicode_len();
    if n == 0 {
        return None;
    }
    if s.get_char(0) != '"' {
        return None;
    }
    let tail = s.substring_char(1, n);
    proof {
        assert(tail@ =~= s@.skip(1));
    }
    let mut out = String::new();
    match parse_strbody_into(tail, &mut out) {
        None => None,
        Some(rr) => {
            proof {
                let (t, _pr) = p_strbody(tail@).unwrap();
                assert(out@ =~= t);
            }
            Some((out, rr))
        },
    }
}

/// The value of a decimal digit character.
fn digit_of(c: char) -> (r: Option<u32>)
    ensures
        r is Some <==> digit_val(c) is Some,
        r matches Some(d) ==> d < 10 && d as int == digit_val(c).unwrap(),
{
    if c == '0' {
        Some(0)
    } else if c == '1' {
        Some(1)
    } else if c == '2' {
        Some(2)
    } else if c == '3' {
        Some(3)
    } else if c == '4' {
        Some(4)
    } else if c == '5' {
        Some(5)
    } else if c == '6' {
        Some(6)
    } else if c == '7' {
        Some(7)
    } else if c == '8' {
        Some(8)
    } else if c == '9' {
        Some(9)
    } else {
        None
    }
}

/// Consume every leading digit. `acc` tracks the exact value while it is
/// still small; once it passes the stored range, only the fact that the
/// value is out of range is tracked (`over`).
fn parse_digits<'a>(s: &'a str, acc: u64, over: bool, Ghost(val): Ghost<int>) -> (r: (
    u64,
    bool,
    &'a str,
))
    requires
        val >= 0,
        !over ==> val == acc as int,
        over ==> val >= 2147483649,
    ensures
        r.2@ == p_digits(s@, val).1,
        !r.1 ==> r.0 as int == p_digits(s@, val).0,
        r.1 ==> p_digits(s@, val).0 >= 2147483649,
    decreases s@.len(),
{
    let n = s.unicode_len();
    if n == 0 {
        return (acc, over, s);
    }
    match digit_of(s.get_char(0)) {
        None => (acc, over, s),
        Some(d) => {
            let tail = s.substring_char(1, n);
            proof {
                assert(tail@ =~= s@.skip(1));
            }
            let ghost val2 = val * 10 + digit_val(s@[0]).unwrap();
            if over {
                proof {
                    assert(val2 >= val) by (nonlinear_arith)
                        requires
                            val >= 0,
                            val2 == val * 10 + digit_val(s@[0]).unwrap(),
                            digit_val(s@[0]).unwrap() >= 0,
                    ;
                }
                parse_digits(tail, acc, true, Ghost(val2))
            } else if acc >= 2147483649 {
                proof {
                    assert(val2 >= val) by (nonlinear_arith)
                        requires
                            val >= 0,
                            val2 == val * 10 + digit_val(s@[0]).unwrap(),
                            digit_val(s@[0]).unwrap() >= 0,
                    ;
                }
                parse_digits(tail, acc, true, Ghost(val2))
            } else {
                let acc2 = acc * 10 + (d as u64);
                parse_digits(tail, acc2, false, Ghost(val2))
            }
        },
    }
}

/// Consume an integer that fits the stored geometry type.
fn parse_i32<'a>(s: &'a str) -> (r: Option<(i32, &'a str)>)
    ensures
        r is Some <==> p_i32(s@) is Some,
        r matches Some(p) ==> p_i32(s@) matches Some(pv) && p.0 as int == pv.0 && p.1@ == pv.1,
{
    let n = s.unicode_len();
    if n == 0 {
        return None;
    }
    let neg = s.get_char(0) == '-';
    let body = if neg {
        s.substring_char(1, n)
    } else {
        s
    };
    proof {
        if neg {
            assert(body@ =~= s@.skip(1));
        }
    }
    let bn = body.unicode_len();
    if bn == 0 {
        return None;
    }
    if digit_of(body.get_char(0)).is_none() {
        return None;
    }
    let (acc, over, rest) = parse_digits(body, 0, false, Ghost(0));
    if over {
        return None;
    }
    if neg {
        if acc > 2147483648 {
            return None;
        }
        let v: i32 = (-(acc as i64)) as i32;
        proof {
            assert(v as int == -(p_digits(body@, 0).0));
        }
        Some((v, rest))
    } else {
        if acc > 2147483647 {
            return None;
        }
        Some((acc as i32, rest))
    }
}

/// Consume one note object.
#[verifier::rlimit(100)]
fn parse_note<'a>(s: &'a str) -> (r: Option<(Note, &'a str)>)
    ensures
        r is Some <==> p_note(s@) is Some,
        r matches Some(p) ==> p_note(s@) matches Some(pv) && p.0@ == pv.0 && p.1@ == pv.1,
{
    let s1 = match expect_lit(s, "{\n    \"id\": ") {
        None => {
            return None;
        },
        Some(x) => x,
    };
    let (id, s1b) = match parse_string(s1) {
        None => {
            return None;
        },
        Some(x) => x,
    };
    let s2 = match expect_lit(s1b, ",\n    \"content\": ") {
        None => {
            return None;
        },
        Some(x) => x,
    };
    let (content, s2b) = match parse_string(s2) {
        None => {
            return None;
        },
        Some(x) => x,
    };
    let s3 = match expect_lit(s2b, ",\n    \"bg_color\": ") {
        None => {
            return None;
        },
        Some(x) => x,
    };
    let (bg, s3b) = match parse_string(s3) {
        None => {
            return None;
        },
        Some(x) => x,
    };
    let s4 = match expect_lit(s3b, ",\n    \"fg_color\": ") {
        None => {
            return None;
        },
        Some(x) => x,
    };
    let (fg, s4b) = match parse_string(s4) {
        None => {
            return None;
        },
        Some(x) => x,
    };
    let s5 = match expect_lit(s4b, ",\n    \"x\": ") {
        None => {
            return None;
        },
        Some(x) => x,
    };
    let (xv, s5b) = match parse_i32(s5) {
        None => {
            return None;
        },
        Some(x) => x,
    };
    let s6 = match expect_lit(s5b, ",\n    \"y\": ") {
        None => {
            return None;
        },
        Some(x) => x,
    };
    let (yv, s6b) = match parse_i32(s6) {
        None => {
            return None;
        },
        Some(x) => x,
    };
    let s7 = match expect_lit(s6b, ",\n    \"width\": ") {
        None => {
            return None;
        },
        Some(x) => x,
    };
    let (wv, s7b) = match parse_i32(s7) {
        None => {
            return None;
        },
        Some(x) => x,
    };
    let s8 = match expect_lit(s7b, ",\n    \"height\": ") {
        None => {
            return None;
        },
        Some(x) => x,
    };
    let (hv, s8b) = match parse_i32(s8) {
        None => {
            return None;
        },
        Some(x) => x,
    };
    let s9 = match expect_lit(s8b, ",\n    \"window_level\": ") {
        None => {
            return None;
        },
        Some(x) => x,
    };
    let (nm, s9b) = match parse_string(s9) {
        None => {
            return None;
        },
        Some(x) => x,
    };
    let lv: WindowLevel;
    if crate::text::str_eq(nm.as_str(), "normal") {
        lv = WindowLevel::Normal;
    } else if crate::text::str_eq(nm.as_str(), "alwaysOnTop") {
        lv = WindowLevel::AlwaysOnTop;
    } else if crate::text::str_eq(nm.as_str(), "desktop") {
        lv = WindowLevel::Desktop;
    } else {
        return None;
    }
    let s10 = match expect_lit(s9b, ",\n    \"created_at\": ") {
        None => {
            return None;
        },
        Some(x) => x,
    };
    let (ca, s10b) = match parse_string(s10) {
        None => {
            return None;
        },
        Some(x) => x,
    };
    let s11 = match expect_lit(s10b, ",\n    \"updated_at\": ") {
        None => {
            return None;
        },
        Some(x) => x,
    };
    let (ua, s11b) = match parse_string(s11) {
        None => {
            return None;
        },
        Some(x) => x,
    };
    let rr = match expect_lit(s11b, "\n  }") {
        None => {
            return None;
        },
        Some(x) => x,
    };
    let note = Note {
        id: id,
        content: content,
        bg_color: bg,
        fg_color: fg,
        x: xv,
        y: yv,
        width: wv,
        height: hv,
        window_level: lv,
        created_at: ca,
        updated_at: ua,
    };
    proof {
        assert(p_note(s@) matches Some(pv) && note@ =~= pv.0 && rr@ == pv.1);
    }
    Some((note, rr))
}

/// Consume the rest of the array, pushing each note onto `out`.
fn parse_more<'a>(s: &'a str, out: &mut Vec<Note>) -> (r: Option<&'a str>)
    ensures
        r is Some <==> p_more(s@) is Some,
        r matches Some(rr) ==> p_more(s@) matches Some(pv) && crate::registry::views(final(out)@)
            == crate::registry::views(old(out)@) + pv.0 && rr@ == pv.1,
    decreases s@.len(),
{
    if let Some(rr) = expect_lit(s, "\n]") {
        proof {
            assert(crate::registry::views(out@) =~= crate::registry::views(out@) + Seq::<
                NoteView,
            >::empty());
        }
        return Some(rr);
    }
    let s1 = match expect_lit(s, ",\n  ") {
        None => {
            return None;
        },
        Some(x) => x,
    };
    let (note, r) = match parse_note(s1) {
        None => {
            return None;
        },
        Some(x) => x,
    };
    if r.unicode_len() < s.unicode_len() {
        let ghost pre = out@;
        out.push(note);
        let ghost mid = out@;
        proof {
            assert(crate::registry::views(mid) =~= crate::registry::views(pre).push(note@));
        }
        match parse_more(r, out) {
            None => None,
            Some(rr) => {
                proof {
                    let (vs, _pr) = p_more(r@).unwrap();
                    assert(crate::registry::views(out@) == crate::registry::views(mid) + vs);
                    assert(crate::registry::views(out@) =~= crate::registry::views(pre) + (seq![
                        note@,
                    ] + vs));
                }
                Some(rr)
            },
        }
    } else {
        None
    }
}

/// Parse a whole snapshot text; `None` on anything malformed.
pub fn decode_notes(s: &str) -> (r: Option<Vec<Note>>)
    ensures
        r is Some <==> dec_notes(s@) is Some,
        r matches Some(v) ==> crate::registry::views(v@) == dec_notes(s@).unwrap(),
{
    if let Some(rr) = expect_lit(s, "[]") {
        if rr.unicode_len() == 0 {
            let out: Vec<Note> = Vec::new();
            proof {
                assert(crate::registry::views(out@) =~= Seq::<NoteView>::empty());
            }
            return Some(out);
        } else {
            return None;
        }
    }
    let s1 = match expect_lit(s, "[\n  ") {
        None => {
            return None;
        },
        Some(x) => x,
    };
    let (note, r) = match parse_note(s1) {
        None => {
            return None;
        },
        Some(x) => x,
    };
    let mut out: Vec<Note> = Vec::new();
    out.push(note);
    let ghost mid = out@;
    proof {
        assert(crate::registry::views(mid) =~= Seq::<NoteView>::empty().push(note@));
    }
    match parse_more(r, &mut out) {
        None => None,
        Some(rr) => {
            if rr.unicode_len() == 0 {
                proof {
                    let (vs, _pr) = p_more(r@).unwrap();
                    assert(crate::registry::views(out@) == crate::registry::views(mid) + vs);
                    assert(crate::registry::views(out@) =~= seq![note@] + vs);
                }
                Some(out)
            } else {
                None
            }
        },
    }
}

/// Parsing an encoded snapshot yields exactly the encoded notes: saving the
/// collection and loading it back reconstructs the same notes, whatever
/// order they were iterated in.
pub proof fn lemma_snapshot_round_trip(s: Seq<NoteView>)
    requires
        forall|i: int| 0 <= i < s.len() ==> geom_in_range(#[trigger] s[i]),
    ensures
        dec_notes(enc_notes(s)) == Some(s),
{
    reveal_strlit("[]");
    reveal_strlit("[\n  ");
    let input = enc_notes(s);
    if s.len() == 0 {
        assert(input == "[]"@);
        assert(input + Seq::<char>::empty() =~= input);
        lemma_p_lit_round("[]"@, Seq::<char>::empty());
        assert(p_notes(input) == Some((Seq::<NoteView>::empty(), Seq::<char>::empty())));
        assert(s =~= Seq::<NoteView>::empty());
    } else {
        let tail = enc_more(s.skip(1));
        assert(input =~= "[\n  "@ + (enc_note(s[0]) + tail));
        assert(input[0] == '[');
        assert(input[1] == '\n');
        assert(p_lit(input, "[]"@) is None) by {
            assert("[]"@[0] == '[');
            assert("[]"@[1] == ']');
            let i1 = input.skip(1);
            let l1 = "[]"@.skip(1);
            assert(i1[0] == input[1]);
            assert(l1[0] == "[]"@[1]);
            assert(l1.len() == 1);
            assert(p_lit(i1, l1) is None);
        }
        lemma_p_lit_round("[\n  "@, enc_note(s[0]) + tail);
        assert(tail + Seq::<char>::empty() =~= tail);
        lemma_p_note_round(s[0], tail);
        lemma_p_more_round(s.skip(1), Seq::<char>::empty());
        assert(p_notes(input) == Some((seq![s[0]] + s.skip(1), Seq::<char>::empty())));
        assert(seq![s[0]] + s.skip(1) =~= s);
    }
}

} // verus!
