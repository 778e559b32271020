//! XOR masking of frame payloads (RFC 6455, section 5.3).
use vstd::prelude::*;

verus! {

/// `data` with the byte at index `i` XORed with the key byte at index `(offset + i) mod 4`.
pub open spec fn masked(data: Seq<u8>, key: Seq<u8>, offset: int) -> Seq<u8> {
    Seq::new(data.len(), |i: int| data[i] ^ key[(offset + i) % 4])
}

/// Masking twice with one key gives the data back.
pub proof fn law_mask_is_an_involution(data: Seq<u8>, key: Seq<u8>, offset: int)
    requires
        key.len() == 4,
    ensures
        masked(masked(data, key, offset), key, offset) == data,
{
    assert forall|i: int| 0 <= i < data.len() implies #[trigger] masked(
        masked(data, key, offset),
        key,
        offset,
    )[i] == data[i] by {
        let d = data[i];
        let k = key[(offset + i) % 4];
        assert((d ^ k) ^ k == d) by (bit_vector);
    }
    assert(masked(masked(data, key, offset), key, offset) =~= data);
}

/// Masking in two runs, the second with the offset where the first stopped, is masking in one.
pub proof fn law_mask_runs_concatenate(a: Seq<u8>, b: Seq<u8>, key: Seq<u8>, offset: int)
    requires
        key.len() == 4,
    ensures
        masked(a + b, key, offset) == masked(a, key, offset) + masked(
            b,
            key,
            offset + a.len() as int,
        ),
{
    assert(masked(a + b, key, offset) =~= masked(a, key, offset) + masked(
        b,
        key,
        offset + a.len() as int,
    ));
}

/// Masks `data` in place from the start of the key.
pub fn apply_mask(data: &mut [u8], mask: [u8; 4])
    ensures
        final(data)@ == masked(old(data)@, mask@, 0),
{
    apply_mask_offset(data, mask, 0)
}

/// Masks `data` in place, as the part of a payload that starts at byte `offset`.
pub fn apply_mask_offset(data: &mut [u8], mask: [u8; 4], offset: usize)
    ensures
        final(data)@ == masked(old(data)@, mask@, offset as int),
{
    let len: usize = data.len();
    let mut i: usize = 0;
    while i < len
        invariant
            i <= len,
            len == old(data)@.len(),
            data@.len() == len,
            forall|j: int| 0 <= j < i ==> data@[j] == masked(old(data)@, mask@, offset as int)[j],
            forall|j: int| i <= j < len ==> data@[j] == old(data)@[j],
        decreases len - i,
    {
        let k: usize = (offset % 4 + i % 4) % 4;
        assert(k == (offset + i) % 4);
        let b: u8 = data[i] ^ mask[k];
        data[i] = b;
        i = i + 1;
    }
    assert(data@ =~= masked(old(data)@, mask@, offset as int));
}

} // verus!
