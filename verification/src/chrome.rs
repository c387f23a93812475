//! The film-grain noise behind the window chrome.

use vstd::prelude::*;

verus! {

/// One round of the integer hash the grain uses for a pixel position.
pub open spec fn grain_hash(x: u32, y: u32) -> u32 {
    let n0 = ((x as nat * 374761393 + y as nat * 668265263) % 0x1_0000_0000) as u32;
    let n1 = (((n0 ^ (n0 >> 13u32)) as nat * 1274126177) % 0x1_0000_0000) as u32;
    n1 ^ (n1 >> 16u32)
}

/// Integer hash of a pixel position (wrapping arithmetic).
pub fn hash2(x: u32, y: u32) -> (r: u32)
    ensures
        r == grain_hash(x, y),
{
    let a = x.wrapping_mul(374761393);
    let b = y.wrapping_mul(668265263);
    let mut n = a.wrapping_add(b);
    proof {
        assert(a as nat == (x as nat * 374761393) % 0x1_0000_0000);
        assert(b as nat == (y as nat * 668265263) % 0x1_0000_0000);
        vstd::arithmetic::div_mod::lemma_add_mod_noop((x as nat * 374761393) as int, (y as nat * 668265263) as int, 0x1_0000_0000int);
    }
    n = (n ^ (n >> 13)).wrapping_mul(1274126177);
    n ^ (n >> 16)
}

} // verus!
