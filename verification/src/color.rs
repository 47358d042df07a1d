//! Parsing `#rrggbb` color strings into RGB components, with the dark-gray
//! fallback the window tint uses on malformed input.

use vstd::prelude::*;

verus! {

/// The value of a hexadecimal digit character.
pub open spec fn hex_val(c: char) -> Option<int> {
    if c == '0' {
        Some(0)
    } else if c == '1' {
        Some(1)
    } else if c == '2' {
        Some(2)
    } else if c == '3' {
        Some(3)
    } else if c == '4' {
        Some(4)
    } else if c == '5' {
        Some(5)
    } else if c == '6' {
        Some(6)
    } else if c == '7' {
        Some(7)
    } else if c == '8' {
        Some(8)
    } else if c == '9' {
        Some(9)
    } else if c == 'a' || c == 'A' {
        Some(10)
    } else if c == 'b' || c == 'B' {
        Some(11)
    } else if c == 'c' || c == 'C' {
        Some(12)
    } else if c == 'd' || c == 'D' {
        Some(13)
    } else if c == 'e' || c == 'E' {
        Some(14)
    } else if c == 'f' || c == 'F' {
        Some(15)
    } else {
        None
    }
}

/// The value of a two-digit hex pair; a malformed pair falls back to 10,
/// the dark-gray component.
pub open spec fn hex_pair(a: char, b: char) -> int {
    match (hex_val(a), hex_val(b)) {
        (Some(hi), Some(lo)) => hi * 16 + lo,
        _ => 10,
    }
}

/// `s` without its leading `#` characters.
pub open spec fn strip_hashes(s: Seq<char>) -> Seq<char>
    decreases s.len(),
{
    if s.len() > 0 && s[0] == '#' {
        strip_hashes(s.skip(1))
    } else {
        s
    }
}

/// The RGB components a color string denotes: the string is stripped of
/// leading `#`, then read as three hex pairs; anything too short is the
/// dark-gray fallback `(10, 10, 10)`.
pub open spec fn color_of(s: Seq<char>) -> (int, int, int) {
    let h = strip_hashes(s);
    if h.len() >= 6 {
        (hex_pair(h[0], h[1]), hex_pair(h[2], h[3]), hex_pair(h[4], h[5]))
    } else {
        (10, 10, 10)
    }
}

fn hex_of(c: char) -> (r: Option<u8>)
    ensures
        r is Some <==> hex_val(c) is Some,
        r matches Some(v) ==> v < 16 && v as int == hex_val(c).unwrap(),
{
    if c == '0' {
        Some(0)
    } else if c == '1' {
        Some(1)
    } else if c == '2' {
        Some(2)
    } else if c == '3' {
        Some(3)
    } else if c == '4' {
        Some(4)
    } else if c == '5' {
        Some(5)
    } else if c == '6' {
        Some(6)
    } else if c == '7' {
        Some(7)
    } else if c == '8' {
        Some(8)
    } else if c == '9' {
        Some(9)
    } else if c == 'a' || c == 'A' {
        Some(10)
    } else if c == 'b' || c == 'B' {
        Some(11)
    } else if c == 'c' || c == 'C' {
        Some(12)
    } else if c == 'd' || c == 'D' {
        Some(13)
    } else if c == 'e' || c == 'E' {
        Some(14)
    } else if c == 'f' || c == 'F' {
        Some(15)
    } else {
        None
    }
}

fn hex_pair_of(a: char, b: char) -> (r: u8)
    ensures
        r as int == hex_pair(a, b),
{
    match (hex_of(a), hex_of(b)) {
        (Some(hi), Some(lo)) => hi * 16 + lo,
        _ => 10,
    }
}

/// Parse a `#rrggbb` color into its RGB components (the window background
/// tint), falling back to dark gray on malformed input.
pub fn parse_hex_color(hex: &str) -> (r: (u8, u8, u8))
    ensures
        r.0 as int == color_of(hex@).0,
        r.1 as int == color_of(hex@).1,
        r.2 as int == color_of(hex@).2,
{
    let n = hex.unicode_len();
    let mut start: usize = 0;
    proof {
        assert(hex@.skip(0) =~= hex@);
    }
    while start < n && hex.get_char(start) == '#'
        invariant
            start <= n,
            n == hex@.len(),
            strip_hashes(hex@) == strip_hashes(hex@.skip(start as int)),
        decreases n - start,
    {
        proof {
            let t = hex@.skip(start as int);
            assert(t[0] == hex@[start as int]);
            assert(t.skip(1) =~= hex@.skip(start as int + 1));
        }
        start += 1;
    }
    let h = hex.substring_char(start, n);
    proof {
        let t = hex@.skip(start as int);
        assert(h@ =~= t);
        if t.len() > 0 {
            assert(t[0] == hex@[start as int]);
        }
        assert(strip_hashes(t) == t);
    }
    let hn = h.unicode_len();
    if hn >= 6 {
        let r = hex_pair_of(h.get_char(0), h.get_char(1));
        let g = hex_pair_of(h.get_char(2), h.get_char(3));
        let b = hex_pair_of(h.get_char(4), h.get_char(5));
        (r, g, b)
    } else {
        (10, 10, 10)
    }
}

} // verus!
