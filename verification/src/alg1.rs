//! The smaller cipher instantiation: 28-byte blocks of 32-bit words with
//! a 32-bit index, hashed through the same S-box as the larger one.

use crate::alg2::{sbox, sbox_spec};
use crate::algorithm::{
    keystream_bytes, xor_bytes, CipherBlockRef, GenericCipher, GenericCipherBlock, IndexHash,
    WindowMode,
};
use crate::key::{key_elements, Key, Word};
use vstd::prelude::*;

verus! {

pub const BLOCK_SIZE: usize = 28;

pub const ELEMENT_COUNT: usize = 7;

pub type CipherBlock = GenericCipherBlock<BLOCK_SIZE>;

/// What the index hash returns: each little-endian byte of the index
/// substituted through the S-box, a pure function of the index alone.
pub open spec fn hash_spec(index: u32) -> u32 {
    u32::from_le_spec(Seq::new(4, |k: int| sbox_spec(index.to_le_spec()[k])))
}

/// Passes each byte of `index` through the AES S-box to provide a
/// non-linear hash.
pub fn hash(index: u32) -> (r: u32)
    ensures
        r == hash_spec(index),
{
    let mut buf: Vec<u8> = Vec::new();
    buf.push(0);
    buf.push(0);
    buf.push(0);
    buf.push(0);
    index.write_le(&mut buf, 0);
    let mut out: Vec<u8> = Vec::new();
    out.push(sbox(buf[0]));
    out.push(sbox(buf[1]));
    out.push(sbox(buf[2]));
    out.push(sbox(buf[3]));
    let r = u32::read_le(out.as_slice(), 0);
    proof {
        index.lemma_to_le_len();
        assert(out@.subrange(0, 4) =~= Seq::new(4, |k: int| sbox_spec(index.to_le_spec()[k])));
    }
    r
}

/// The index hash of this instantiation, packaged as an engine strategy.
pub struct SBoxHash32;

impl IndexHash<u32> for SBoxHash32 {
    open spec fn hash_spec(&self, index: u32) -> u32 {
        hash_spec(index)
    }

    fn hash(&self, index: u32) -> (r: u32) {
        hash(index)
    }
}

/// The 28-byte-block cipher bound to the S-box index hash, with
/// word-granular windowing.
pub struct Algorithm1<'k, const KEY_SIZE: usize>(
    GenericCipher<'k, SBoxHash32, u32, KEY_SIZE, BLOCK_SIZE>,
);

impl<'k, const KEY_BYTES: usize> Algorithm1<'k, KEY_BYTES> {
    /// An engine of this instantiation always windows word-granularly.
    pub closed spec fn wf(&self) -> bool {
        self.0.mode_spec() is WordGranular
    }

    /// The key bytes the cipher reads.
    pub closed spec fn key_spec(&self) -> Seq<u8> {
        self.0.key_spec()
    }

    /// The secret index key xored onto every block index.
    pub closed spec fn index_key_spec(&self) -> u32 {
        self.0.index_key_spec()
    }

    /// The keystream a block at `index` is xored with.
    pub closed spec fn keystream_spec(&self, index: u32) -> Seq<u8> {
        self.0.keystream_spec::<u32>(index, ELEMENT_COUNT as int)
    }

    pub fn new(key: &'k Key<KEY_BYTES>, index_key: u32) -> (r: Self)
        ensures
            r.wf(),
            r.key_spec() == key@,
            r.index_key_spec() == index_key,
            forall|index: u32| #[trigger] r.keystream_spec(index) == keystream_bytes::<u32>(
                key@,
                WindowMode::WordGranular,
                (hash_spec(index ^ index_key) as usize) as int,
                ELEMENT_COUNT as int,
            ),
    {
        Algorithm1(GenericCipher::new(SBoxHash32, key, index_key))
    }

    /// Involution law: transforming a block twice with the same cipher
    /// and index restores it, whatever the key material and index key.
    pub proof fn lemma_cipher_involution(&self, index: u32, data: Seq<u8>)
        ensures
            xor_bytes(
                xor_bytes(data, self.keystream_spec(index)),
                self.keystream_spec(index),
            ) == data,
    {
        crate::algorithm::lemma_xor_bytes_involution(data, self.keystream_spec(index));
    }

    /// Encrypts or decrypts a single block using the key and `index`,
    /// in place. Because xor is used, the encryption and decryption
    /// operation is the same.
    pub fn cipher_block(&self, index: u32, block: &mut GenericCipherBlock<BLOCK_SIZE>)
        requires
            self.wf(),
            ELEMENT_COUNT as int <= key_elements::<u32>(KEY_BYTES as int),
        ensures
            final(block).0@ == xor_bytes(old(block).0@, self.keystream_spec(index)),
    {
        let mut buf: Vec<u8> = Vec::new();
        let mut i: usize = 0;
        while i < BLOCK_SIZE
            invariant
                i <= BLOCK_SIZE,
                buf@.len() == i,
                block.0@ == old(block).0@,
                forall|t: int| 0 <= t < i ==> buf@[t] == block.0@[t],
            decreases BLOCK_SIZE - i,
        {
            buf.push(block.0[i]);
            i += 1;
        }
        proof {
            assert(buf@ =~= old(block).0@);
        }
        let mut cref = CipherBlockRef::<BLOCK_SIZE, 4>::new(buf);
        self.0.cipher_block::<ELEMENT_COUNT, 4, u32>(index, &mut cref);
        let v = cref.into_vec();
        let ghost out = xor_bytes(old(block).0@, self.keystream_spec(index));
        let mut i: usize = 0;
        while i < BLOCK_SIZE
            invariant
                i <= BLOCK_SIZE,
                v@ == out,
                out.len() == BLOCK_SIZE,
                forall|t: int| 0 <= t < i ==> block.0@[t] == out[t],
            decreases BLOCK_SIZE - i,
        {
            block.0[i] = v[i];
            i += 1;
        }
        proof {
            assert(block.0@ =~= out);
        }
    }
}

} // verus!
