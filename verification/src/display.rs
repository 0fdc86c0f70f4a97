//! Small rules of the terminal frontend: stance names, hex colors and
//! focus cycling.

use vstd::prelude::*;
use crate::text::{chars_of, owned};

verus! {

/// The stance a percentage stands for.
pub open spec fn stance_name(percentage: u32) -> Seq<char> {
    if 81 <= percentage <= 100 {
        "defensive"@
    } else if 61 <= percentage <= 80 {
        "guarded"@
    } else if 41 <= percentage <= 60 {
        "neutral"@
    } else if 21 <= percentage <= 40 {
        "forward"@
    } else if 1 <= percentage <= 20 {
        "advance"@
    } else if percentage == 0 {
        "offensive"@
    } else {
        "unknown"@
    }
}

/// The stance name for a stance percentage ("unknown" above 100).
pub fn stance_percentage_to_text(percentage: u32) -> (r: String)
    ensures
        r@ == stance_name(percentage),
{
    if 81 <= percentage && percentage <= 100 {
        owned("defensive")
    } else if 61 <= percentage && percentage <= 80 {
        owned("guarded")
    } else if 41 <= percentage && percentage <= 60 {
        owned("neutral")
    } else if 21 <= percentage && percentage <= 40 {
        owned("forward")
    } else if 1 <= percentage && percentage <= 20 {
        owned("advance")
    } else if percentage == 0 {
        owned("offensive")
    } else {
        owned("unknown")
    }
}

/// `s` without its leading '#' characters.
pub open spec fn strip_hashes(s: Seq<char>) -> Seq<char>
    decreases s.len(),
{
    if s.len() > 0 && s[0] == '#' {
        strip_hashes(s.skip(1))
    } else {
        s
    }
}

pub open spec fn is_hex(c: char) -> bool {
    ('0' <= c && c <= '9') || ('a' <= c && c <= 'f') || ('A' <= c && c <= 'F')
}

pub open spec fn hex_value(c: char) -> nat {
    if '0' <= c && c <= '9' {
        (c as u32 - '0' as u32) as nat
    } else if 'a' <= c && c <= 'f' {
        (c as u32 - 'a' as u32 + 10) as nat
    } else {
        (c as u32 - 'A' as u32 + 10) as nat
    }
}

/// `u8::from_str_radix(.., 16)` on two characters: two hex digits, or a
/// '+' and one hex digit.
pub open spec fn hex_pair(a: char, b: char) -> Option<u8> {
    if a == '+' {
        if is_hex(b) {
            Some(hex_value(b) as u8)
        } else {
            None
        }
    } else if is_hex(a) && is_hex(b) {
        Some((16 * hex_value(a) + hex_value(b)) as u8)
    } else {
        None
    }
}

/// A color written `#RRGGBB` (any number of leading '#', or none) as its
/// three components.
pub open spec fn hex_color(s: Seq<char>) -> Option<(u8, u8, u8)> {
    let h = strip_hashes(s);
    if h.len() == 6 {
        match (hex_pair(h[0], h[1]), hex_pair(h[2], h[3]), hex_pair(h[4], h[5])) {
            (Some(r), Some(g), Some(b)) => Some((r, g, b)),
            _ => None,
        }
    } else {
        None
    }
}

fn hex_value_exec(c: char) -> (r: u8)
    requires
        is_hex(c),
    ensures
        r == hex_value(c),
{
    if '0' <= c && c <= '9' {
        ((c as u32) - ('0' as u32)) as u8
    } else if 'a' <= c && c <= 'f' {
        ((c as u32) - ('a' as u32) + 10) as u8
    } else {
        ((c as u32) - ('A' as u32) + 10) as u8
    }
}

fn is_hex_exec(c: char) -> (r: bool)
    ensures
        r == is_hex(c),
{
    ('0' <= c && c <= '9') || ('a' <= c && c <= 'f') || ('A' <= c && c <= 'F')
}

fn hex_pair_exec(a: char, b: char) -> (r: Option<u8>)
    ensures
        r == hex_pair(a, b),
{
    if a == '+' {
        if is_hex_exec(b) {
            Some(hex_value_exec(b))
        } else {
            None
        }
    } else if is_hex_exec(a) && is_hex_exec(b) {
        let hi = hex_value_exec(a);
        let lo = hex_value_exec(b);
        Some(16 * hi + lo)
    } else {
        None
    }
}

proof fn lemma_strip_hashes_skip(s: Seq<char>, k: int)
    requires
        0 <= k <= s.len(),
        forall|j: int| 0 <= j < k ==> s[j] == '#',
    ensures
        strip_hashes(s) == strip_hashes(s.skip(k)),
    decreases k,
{
    if k > 0 {
        assert(s.skip(1).skip(k - 1) =~= s.skip(k));
        lemma_strip_hashes_skip(s.skip(1), k - 1);
    } else {
        assert(s.skip(0) =~= s);
    }
}

/// Parse a `#RRGGBB` color into its components.
pub fn parse_hex_color(hex: &str) -> (r: Option<(u8, u8, u8)>)
    ensures
        r == hex_color(hex@),
{
    let c = chars_of(hex);
    let mut k: usize = 0;
    while k < c.len() && c[k] == '#'
        invariant
            k <= c@.len(),
            c@ == hex@,
            forall|j: int| 0 <= j < k ==> c@[j] == '#',
        decreases c@.len() - k,
    {
        k = k + 1;
    }
    proof {
        lemma_strip_hashes_skip(c@, k as int);
        let t = c@.skip(k as int);
        if t.len() > 0 {
            assert(t[0] == c@[k as int]);
            assert(t[0] != '#');
        }
    }
    if c.len() - k != 6 {
        return None;
    }
    match (hex_pair_exec(c[k], c[k + 1]), hex_pair_exec(c[k + 2], c[k + 3]), hex_pair_exec(c[k + 4], c[k + 5])) {
        (Some(r), Some(g), Some(b)) => Some((r, g, b)),
        _ => None,
    }
}

/// The window focused after cycling forward from `current` among
/// `window_count` windows; with no windows the focus stays.
pub fn cycle_focused_window(current: usize, window_count: usize) -> (r: usize)
    requires
        window_count > 0 ==> current < usize::MAX,
    ensures
        r == if window_count > 0 {
            ((current + 1) % (window_count as int)) as usize
        } else {
            current
        },
{
    if window_count > 0 {
        (current + 1) % window_count
    } else {
        current
    }
}

} // verus!
