//! Wraparound-aware ordering of 16-bit sequence numbers.
use vstd::prelude::*;

verus! {

/// Number of consecutive sequence numbers that one stream buffer may span:
/// half the sequence space, so that "before" and "after" stay unambiguous.
pub const WINDOW: u32 = 32768;

/// How far `x` lies after `base`, counting forward modulo 65536.
pub open spec fn seq_offset(base: u16, x: u16) -> int {
    if x >= base {
        x - base
    } else {
        x - base + 65536
    }
}

/// `a` comes strictly before `b` on the circle of sequence numbers.
pub open spec fn seq_precedes(a: u16, b: u16) -> bool {
    0 < seq_offset(a, b) < WINDOW
}

/// Forward distance from `base` to `x`, modulo 65536.
pub fn offset(base: u16, x: u16) -> (r: u32)
    ensures
        r == seq_offset(base, x),
{
    if x >= base {
        (x - base) as u32
    } else {
        x as u32 + 65536 - base as u32
    }
}

/// Whether `a` comes strictly before `b`, treating 0 as following 65535.
pub fn precedes(a: u16, b: u16) -> (r: bool)
    ensures
        r == seq_precedes(a, b),
{
    let d = offset(a, b);
    0 < d && d < WINDOW
}

} // verus!
