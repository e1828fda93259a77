//! Identifiers of loaded assets, as plain values.
use vstd::prelude::*;

verus! {

/// The identity of an asset: a slot in the asset storage or a fixed UUID.
#[derive(Clone, Copy, Debug, PartialEq, Eq, Structural)]
pub enum AssetKey {
    Index { generation: u32, index: u32 },
    Uuid(u128),
}

/// Whether `key` occurs in `keys`.
pub fn contains_key(keys: &[AssetKey], key: &AssetKey) -> (r: bool)
    ensures
        r == keys@.contains(*key),
{
    let mut i: usize = 0;
    while i < keys.len()
        invariant
            i <= keys@.len(),
            forall|j: int| 0 <= j < i ==> keys@[j] != *key,
        decreases keys@.len() - i,
    {
        if keys[i] == *key {
            return true;
        }
        i = i + 1;
    }
    false
}

} // verus!
