//! The byte transform: a repeating-key XOR applied in place.

use vstd::prelude::*;

verus! {

/// The repeating-key XOR of `data` against `key`, with the key position of
/// the first byte offset by `phase`: byte `i` of the result is
/// `data[i] ^ key[(phase + i) % key.len()]`. An empty key leaves the data
/// unchanged (a documented degenerate case, not an error).
pub open spec fn xor_with_key(data: Seq<u8>, key: Seq<u8>, phase: nat) -> Seq<u8> {
    if key.len() == 0 {
        data
    } else {
        Seq::new(data.len(), |i: int| data[i] ^ key[(phase + i) % (key.len() as int)])
    }
}

/// Applies the repeating-key XOR in place, the key starting at `key[phase]`
/// for the first byte of `data`. A streamed file is transformed chunk by
/// chunk with `phase` carried along, so that the whole file sees one
/// continuous key stream starting at offset 0.
pub fn xor_encrypt_from(data: &mut Vec<u8>, key: &Vec<u8>, phase: usize)
    requires
        key@.len() > 0 ==> phase < key@.len(),
        key@.len() == 0 ==> phase == 0,
    ensures
        final(data)@ == xor_with_key(old(data)@, key@, phase as nat),
{
    if key.len() == 0 {
        return ;
    }
    let klen: usize = key.len();
    let mut k_idx: usize = phase;
    let mut i: usize = 0;
    proof {
        vstd::arithmetic::div_mod::lemma_small_mod(phase as nat, klen as nat);
    }
    while i < data.len()
        invariant
            0 < klen == key@.len(),
            i <= data@.len(),
            data@.len() == old(data)@.len(),
            k_idx < klen,
            k_idx as int == (phase + i) % (klen as int),
            forall|j: int|
                0 <= j < i ==> data@[j] == (old(data)@[j] ^ key@[(phase + j) % (klen as int)]),
            forall|j: int| i <= j < data@.len() ==> data@[j] == old(data)@[j],
        decreases data@.len() - i,
    {
        let b = data[i];
        let k = key[k_idx];
        data.set(i, b ^ k);
        proof {
            let li = klen as int;
            vstd::arithmetic::div_mod::lemma_add_mod_noop_right(k_idx as int, 1, li);
            assert((phase + i + 1) % li == (k_idx + 1int % li) % li) by {
                vstd::arithmetic::div_mod::lemma_add_mod_noop(phase + i, 1, li);
                vstd::arithmetic::div_mod::lemma_mod_twice(phase + i, li);
            }
            if k_idx + 1 == klen {
                vstd::arithmetic::div_mod::lemma_mod_self_0(li);
                assert((phase + i + 1) % li == 0);
            } else {
                vstd::arithmetic::div_mod::lemma_small_mod((k_idx + 1) as nat, klen as nat);
                assert((phase + i + 1) % li == k_idx + 1);
            }
        }
        k_idx = if k_idx + 1 == klen {
            0
        } else {
            k_idx + 1
        };
        i = i + 1;
    }
    assert(data@ =~= xor_with_key(old(data)@, key@, phase as nat));
}

/// Applies the repeating-key XOR in place over one buffer, the key starting
/// at its first byte. For each index `i`, the byte becomes
/// `data[i] ^ key[i % key.len()]`; an empty key is a no-op, not an error.
pub fn xor_encrypt(data: &mut Vec<u8>, key: &Vec<u8>)
    ensures
        final(data)@ == xor_with_key(old(data)@, key@, 0),
        final(data)@.len() == old(data)@.len(),
        key@.len() == 0 ==> final(data)@ == old(data)@,
        key@.len() > 0 ==> forall|i: int|
            0 <= i < old(data)@.len() ==> final(data)@[i] == (old(data)@[i] ^ key@[i % (key@.len()
                as int)]),
{
    xor_encrypt_from(data, key, 0);
}

/// The transform is an involution: applying it twice, with the same key and
/// the same key phase, restores the original bytes.
pub proof fn lemma_xor_involution(data: Seq<u8>, key: Seq<u8>, phase: nat)
    ensures
        xor_with_key(xor_with_key(data, key, phase), key, phase) == data,
{
    if key.len() > 0 {
        assert forall|i: int| 0 <= i < data.len() implies xor_with_key(
            xor_with_key(data, key, phase),
            key,
            phase,
        )[i] == data[i] by {
            let k = key[(phase + i) % (key.len() as int)];
            let d = data[i];
            assert((d ^ k) ^ k == d) by (bit_vector);
        }
        assert(xor_with_key(xor_with_key(data, key, phase), key, phase) =~= data);
    }
}

/// With an empty key the transform is the identity, for every buffer.
pub proof fn lemma_xor_empty_key(data: Seq<u8>, phase: nat)
    ensures
        xor_with_key(data, Seq::<u8>::empty(), phase) == data,
{
}

/// Transforming a concatenation equals transforming the pieces one after the
/// other, the second piece picking up the key phase where the first left
/// off. This is what makes chunked streaming agree with a whole-file
/// transform, whatever the chunk boundaries.
pub proof fn lemma_xor_concat(a: Seq<u8>, b: Seq<u8>, key: Seq<u8>, phase: nat)
    requires
        key.len() > 0 ==> phase < key.len(),
    ensures
        xor_with_key(a + b, key, phase) == xor_with_key(a, key, phase) + xor_with_key(
            b,
            key,
            if key.len() == 0 {
                0
            } else {
                ((phase + a.len()) % key.len())
            },
        ),
{
    if key.len() == 0 {
        assert(xor_with_key(a + b, key, phase) =~= xor_with_key(a, key, phase) + xor_with_key(
            b,
            key,
            0,
        ));
    } else {
        let phase2 = (phase + a.len()) % key.len();
        assert forall|i: int| 0 <= i < (a + b).len() implies xor_with_key(a + b, key, phase)[i] == (
        xor_with_key(a, key, phase) + xor_with_key(b, key, phase2))[i] by {
            if i < a.len() {
                assert((a + b)[i] == a[i]);
            } else {
                assert((a + b)[i] == b[i - a.len()]);
                let j = i - a.len();
                assert((phase2 + j) % (key.len() as int) == (phase + i) % (key.len() as int)) by {
                    vstd::arithmetic::div_mod::lemma_add_mod_noop_right(
                        j,
                        phase + a.len() as int,
                        key.len() as int,
                    );
                }
            }
        }
        assert(xor_with_key(a + b, key, phase) =~= xor_with_key(a, key, phase) + xor_with_key(
            b,
            key,
            phase2,
        ));
    }
}

} // verus!
