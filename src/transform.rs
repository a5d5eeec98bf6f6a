use vstd::prelude::*;

verus! {

/// The byte sequence `data` with every byte masked by `key`.
pub open spec fn masked(data: Seq<u8>, key: u8) -> Seq<u8> {
    Seq::new(data.len(), |i: int| data[i] ^ key)
}

/// Masks every byte of `data` with `key` (exclusive or).
pub fn process_file_data(data: &Vec<u8>, key: u8) -> (r: Vec<u8>)
    ensures
        r@ == masked(data@, key),
{
    let mut processed_data: Vec<u8> = Vec::with_capacity(data.len());
    let mut i: usize = 0;
    while i < data.len()
        invariant
            i <= data@.len(),
            processed_data@ == masked(data@.take(i as int), key),
        decreases data@.len() - i,
    {
        processed_data.push(data[i] ^ key);
        i = i + 1;
        assert(processed_data@ =~= masked(data@.take(i as int), key));
    }
    assert(data@.take(i as int) =~= data@);
    processed_data
}

/// Masking twice with the same key gives back the original bytes, so one
/// operation both encrypts and decrypts.
pub proof fn lemma_masking_is_involution(data: Seq<u8>, key: u8)
    ensures
        masked(masked(data, key), key) == data,
{
    assert forall|i: int| 0 <= i < data.len() implies masked(masked(data, key), key)[i] == data[i] by {
        let b = data[i];
        assert((b ^ key) ^ key == b) by (bit_vector);
    }
    assert(masked(masked(data, key), key) =~= data);
}

} // verus!
