//! Three 32-bit numbers as one key for a hash table.

use vstd::prelude::*;

verus! {

/// Three numbers as one: the first in the highest place, the last in the
/// lowest. Different triples give different keys.
pub open spec fn triple_key(t: (u32, u32, u32)) -> u128 {
    (t.0 as int * 0x1_0000_0000_0000_0000 + t.1 as int * 0x1_0000_0000 + t.2 as int) as u128
}

/// The key of the triple `(a, b, c)`.
pub fn pack_triple(a: u32, b: u32, c: u32) -> (key: u128)
    ensures
        key == triple_key((a, b, c)),
{
    a as u128 * 0x1_0000_0000_0000_0000 + b as u128 * 0x1_0000_0000 + c as u128
}

} // verus!
