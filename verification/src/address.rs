//! Account addresses: twenty bytes, compared byte for byte.

use vstd::prelude::*;

verus! {

/// A fixed-width account identifier. Two addresses are the same exactly when
/// all twenty bytes agree; nothing is normalised before storage.
pub type Address = [u8; 20];

/// Byte-exact comparison of two addresses.
pub fn same_address(a: &Address, b: &Address) -> (same: bool)
    ensures
        same == (*a == *b),
{
    let mut i: usize = 0;
    while i < 20
        invariant
            i <= 20,
            forall|k: int| 0 <= k < i ==> a[k] == b[k],
        decreases 20 - i,
    {
        if a[i] != b[i] {
            return false;
        }
        i += 1;
    }
    assert(*a =~= *b);
    true
}

} // verus!
