//! Counters. Like machine integers, they start again from zero when they run over.
use vstd::prelude::*;

verus! {

/// A 64-bit counter after `n` more.
pub open spec fn counted(c: u64, n: u64) -> u64 {
    ((c + n) % 0x1_0000_0000_0000_0000) as u64
}

/// A 64-bit counter after `n` more.
pub fn count(c: u64, n: u64) -> (r: u64)
    ensures
        r == counted(c, n),
        c + n <= u64::MAX ==> r == c + n,
{
    c.wrapping_add(n)
}

/// The order in which a counter is counted up does not matter.
pub proof fn lemma_counted_in_any_order(a: u64, b: u64, n: u64)
    ensures
        counted(counted(a, b), n) == counted(counted(a, n), b),
        counted(counted(a, b), n) == counted(a, counted(b, n)),
{
    let m = 0x1_0000_0000_0000_0000int;
    assert((a + b) % m == if a + b < m { a + b } else { a + b - m });
    assert((a + n) % m == if a + n < m { a + n } else { a + n - m });
    assert((b + n) % m == if b + n < m { b + n } else { b + n - m });
}

/// A 32-bit counter after `n` more.
pub open spec fn counted32(c: u32, n: u32) -> u32 {
    ((c + n) % 0x1_0000_0000) as u32
}

/// A 32-bit counter after `n` more.
pub fn count32(c: u32, n: u32) -> (r: u32)
    ensures
        r == counted32(c, n),
        c + n <= u32::MAX ==> r == c + n,
{
    c.wrapping_add(n)
}

/// A counter goes up by as much as is counted, and starts again at zero beyond its end.
pub proof fn law_counting(c: u64, n: u64, d: u32, k: u32)
    ensures
        c + n <= u64::MAX ==> counted(c, n) == c + n,
        c + n > u64::MAX ==> counted(c, n) + 0x1_0000_0000_0000_0000 == c + n,
        d + k <= u32::MAX ==> counted32(d, k) == d + k,
        d + k > u32::MAX ==> counted32(d, k) + 0x1_0000_0000 == d + k,
{
}

/// Counting adds, and begins again where the number ends.
pub proof fn law_what_is_counted(c: u64, n: u64, r: u64, d: u32, k: u32, s: u32)
    requires
        call_ensures(count, (c, n), r),
        call_ensures(count32, (d, k), s),
    ensures
        c + n <= u64::MAX ==> r == c + n,
        c + n > u64::MAX ==> r + 0x1_0000_0000_0000_0000 == c + n,
        d + k <= u32::MAX ==> s == d + k,
        d + k > u32::MAX ==> s + 0x1_0000_0000 == d + k,
{
    law_counting(c, n, d, k);
}

} // verus!
