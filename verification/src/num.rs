//! The integer conversion that the player's time arithmetic makes.
use vstd::prelude::*;

verus! {

/// `x as i64`: the same bits read as a signed number, so a value above
/// `i64::MAX` comes out `2^64` smaller.
pub open spec fn as_i64(x: u64) -> int {
    if x <= i64::MAX {
        x as int
    } else {
        x - 0x1_0000_0000_0000_0000int
    }
}

/// `x as i64`.
pub fn u64_as_i64(x: u64) -> (r: i64)
    ensures
        r == as_i64(x),
{
    let r = x as i64;
    assert(x <= 0x7fff_ffff_ffff_ffffu64 ==> r as int == x as int) by (bit_vector)
        requires
            r == x as i64,
    ;
    assert(x > 0x7fff_ffff_ffff_ffffu64 ==> r as int == x as int - 0x1_0000_0000_0000_0000int) by (bit_vector)
        requires
            r == x as i64,
    ;
    r
}

} // verus!
