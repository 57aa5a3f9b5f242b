//! A fixed sample of address octets in nested vectors.
use vstd::prelude::*;

verus! {

/// Two groups of octet quadruples: `[1, 2, 3, 4]` and `[5, 6, 7, 8]`, then `[9, 10, 11, 12]`.
pub fn readvector() -> (data: Vec<Vec<[u8; 4]>>)
    ensures
        data@.len() == 2,
        data@[0]@.len() == 2,
        data@[1]@.len() == 1,
        data@[0]@[0]@ == seq![1u8, 2u8, 3u8, 4u8],
        data@[0]@[1]@ == seq![5u8, 6u8, 7u8, 8u8],
        data@[1]@[0]@ == seq![9u8, 10u8, 11u8, 12u8],
{
    let mut data: Vec<Vec<[u8; 4]>> = Vec::new();
    let arr1: [u8; 4] = [1, 2, 3, 4];
    let arr2: [u8; 4] = [5, 6, 7, 8];
    let arr3: [u8; 4] = [9, 10, 11, 12];
    assert(arr1@ =~= seq![1u8, 2u8, 3u8, 4u8]);
    assert(arr2@ =~= seq![5u8, 6u8, 7u8, 8u8]);
    assert(arr3@ =~= seq![9u8, 10u8, 11u8, 12u8]);
    let vec1 = vec![arr1, arr2];
    let vec2 = vec![arr3];
    data.push(vec1);
    data.push(vec2);
    data
}

} // verus!
