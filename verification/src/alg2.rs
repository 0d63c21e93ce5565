//! The larger cipher instantiation: 248-byte blocks of 64-bit words with
//! a 64-bit index, hashed by passing each index byte through the AES
//! S-box.

use crate::algorithm::{
    keystream_bytes, words_le_bytes, xor_bytes, CipherBlockRef, GenericCipher, GenericCipherBlock,
    IndexHash, WindowMode,
};
use crate::key::{key_elements, Key, Word};
use vstd::prelude::*;

verus! {

pub const BLOCK_SIZE: usize = 248;

pub const ELEMENT_COUNT: usize = 31;

pub type CipherBlock = GenericCipherBlock<BLOCK_SIZE>;

/// The AES S-box, as the fixed nonlinear byte substitution that diffuses
/// the index.
pub open spec fn sbox_table() -> Seq<u8> {
    seq![
        0x63u8, 0x7cu8, 0x77u8, 0x7bu8, 0xf2u8, 0x6bu8, 0x6fu8, 0xc5u8, 0x30u8, 0x01u8, 0x67u8, 0x2bu8, 0xfeu8, 0xd7u8, 0xabu8, 0x76u8,
        0xcau8, 0x82u8, 0xc9u8, 0x7du8, 0xfau8, 0x59u8, 0x47u8, 0xf0u8, 0xadu8, 0xd4u8, 0xa2u8, 0xafu8, 0x9cu8, 0xa4u8, 0x72u8, 0xc0u8,
        0xb7u8, 0xfdu8, 0x93u8, 0x26u8, 0x36u8, 0x3fu8, 0xf7u8, 0xccu8, 0x34u8, 0xa5u8, 0xe5u8, 0xf1u8, 0x71u8, 0xd8u8, 0x31u8, 0x15u8,
        0x04u8, 0xc7u8, 0x23u8, 0xc3u8, 0x18u8, 0x96u8, 0x05u8, 0x9au8, 0x07u8, 0x12u8, 0x80u8, 0xe2u8, 0xebu8, 0x27u8, 0xb2u8, 0x75u8,
        0x09u8, 0x83u8, 0x2cu8, 0x1au8, 0x1bu8, 0x6eu8, 0x5au8, 0xa0u8, 0x52u8, 0x3bu8, 0xd6u8, 0xb3u8, 0x29u8, 0xe3u8, 0x2fu8, 0x84u8,
        0x53u8, 0xd1u8, 0x00u8, 0xedu8, 0x20u8, 0xfcu8, 0xb1u8, 0x5bu8, 0x6au8, 0xcbu8, 0xbeu8, 0x39u8, 0x4au8, 0x4cu8, 0x58u8, 0xcfu8,
        0xd0u8, 0xefu8, 0xaau8, 0xfbu8, 0x43u8, 0x4du8, 0x33u8, 0x85u8, 0x45u8, 0xf9u8, 0x02u8, 0x7fu8, 0x50u8, 0x3cu8, 0x9fu8, 0xa8u8,
        0x51u8, 0xa3u8, 0x40u8, 0x8fu8, 0x92u8, 0x9du8, 0x38u8, 0xf5u8, 0xbcu8, 0xb6u8, 0xdau8, 0x21u8, 0x10u8, 0xffu8, 0xf3u8, 0xd2u8,
        0xcdu8, 0x0cu8, 0x13u8, 0xecu8, 0x5fu8, 0x97u8, 0x44u8, 0x17u8, 0xc4u8, 0xa7u8, 0x7eu8, 0x3du8, 0x64u8, 0x5du8, 0x19u8, 0x73u8,
        0x60u8, 0x81u8, 0x4fu8, 0xdcu8, 0x22u8, 0x2au8, 0x90u8, 0x88u8, 0x46u8, 0xeeu8, 0xb8u8, 0x14u8, 0xdeu8, 0x5eu8, 0x0bu8, 0xdbu8,
        0xe0u8, 0x32u8, 0x3au8, 0x0au8, 0x49u8, 0x06u8, 0x24u8, 0x5cu8, 0xc2u8, 0xd3u8, 0xacu8, 0x62u8, 0x91u8, 0x95u8, 0xe4u8, 0x79u8,
        0xe7u8, 0xc8u8, 0x37u8, 0x6du8, 0x8du8, 0xd5u8, 0x4eu8, 0xa9u8, 0x6cu8, 0x56u8, 0xf4u8, 0xeau8, 0x65u8, 0x7au8, 0xaeu8, 0x08u8,
        0xbau8, 0x78u8, 0x25u8, 0x2eu8, 0x1cu8, 0xa6u8, 0xb4u8, 0xc6u8, 0xe8u8, 0xddu8, 0x74u8, 0x1fu8, 0x4bu8, 0xbdu8, 0x8bu8, 0x8au8,
        0x70u8, 0x3eu8, 0xb5u8, 0x66u8, 0x48u8, 0x03u8, 0xf6u8, 0x0eu8, 0x61u8, 0x35u8, 0x57u8, 0xb9u8, 0x86u8, 0xc1u8, 0x1du8, 0x9eu8,
        0xe1u8, 0xf8u8, 0x98u8, 0x11u8, 0x69u8, 0xd9u8, 0x8eu8, 0x94u8, 0x9bu8, 0x1eu8, 0x87u8, 0xe9u8, 0xceu8, 0x55u8, 0x28u8, 0xdfu8,
        0x8cu8, 0xa1u8, 0x89u8, 0x0du8, 0xbfu8, 0xe6u8, 0x42u8, 0x68u8, 0x41u8, 0x99u8, 0x2du8, 0x0fu8, 0xb0u8, 0x54u8, 0xbbu8, 0x16u8,
    ]
}

/// One byte through the substitution.
pub open spec fn sbox_spec(b: u8) -> u8 {
    sbox_table()[b as int]
}

/// Looks one byte up in the S-box.
pub(crate) fn sbox(b: u8) -> (r: u8)
    ensures
        r == sbox_spec(b),
{
    let table: [u8; 256] = [
        0x63, 0x7c, 0x77, 0x7b, 0xf2, 0x6b, 0x6f, 0xc5, 0x30, 0x01, 0x67, 0x2b, 0xfe, 0xd7, 0xab, 0x76,
        0xca, 0x82, 0xc9, 0x7d, 0xfa, 0x59, 0x47, 0xf0, 0xad, 0xd4, 0xa2, 0xaf, 0x9c, 0xa4, 0x72, 0xc0,
        0xb7, 0xfd, 0x93, 0x26, 0x36, 0x3f, 0xf7, 0xcc, 0x34, 0xa5, 0xe5, 0xf1, 0x71, 0xd8, 0x31, 0x15,
        0x04, 0xc7, 0x23, 0xc3, 0x18, 0x96, 0x05, 0x9a, 0x07, 0x12, 0x80, 0xe2, 0xeb, 0x27, 0xb2, 0x75,
        0x09, 0x83, 0x2c, 0x1a, 0x1b, 0x6e, 0x5a, 0xa0, 0x52, 0x3b, 0xd6, 0xb3, 0x29, 0xe3, 0x2f, 0x84,
        0x53, 0xd1, 0x00, 0xed, 0x20, 0xfc, 0xb1, 0x5b, 0x6a, 0xcb, 0xbe, 0x39, 0x4a, 0x4c, 0x58, 0xcf,
        0xd0, 0xef, 0xaa, 0xfb, 0x43, 0x4d, 0x33, 0x85, 0x45, 0xf9, 0x02, 0x7f, 0x50, 0x3c, 0x9f, 0xa8,
        0x51, 0xa3, 0x40, 0x8f, 0x92, 0x9d, 0x38, 0xf5, 0xbc, 0xb6, 0xda, 0x21, 0x10, 0xff, 0xf3, 0xd2,
        0xcd, 0x0c, 0x13, 0xec, 0x5f, 0x97, 0x44, 0x17, 0xc4, 0xa7, 0x7e, 0x3d, 0x64, 0x5d, 0x19, 0x73,
        0x60, 0x81, 0x4f, 0xdc, 0x22, 0x2a, 0x90, 0x88, 0x46, 0xee, 0xb8, 0x14, 0xde, 0x5e, 0x0b, 0xdb,
        0xe0, 0x32, 0x3a, 0x0a, 0x49, 0x06, 0x24, 0x5c, 0xc2, 0xd3, 0xac, 0x62, 0x91, 0x95, 0xe4, 0x79,
        0xe7, 0xc8, 0x37, 0x6d, 0x8d, 0xd5, 0x4e, 0xa9, 0x6c, 0x56, 0xf4, 0xea, 0x65, 0x7a, 0xae, 0x08,
        0xba, 0x78, 0x25, 0x2e, 0x1c, 0xa6, 0xb4, 0xc6, 0xe8, 0xdd, 0x74, 0x1f, 0x4b, 0xbd, 0x8b, 0x8a,
        0x70, 0x3e, 0xb5, 0x66, 0x48, 0x03, 0xf6, 0x0e, 0x61, 0x35, 0x57, 0xb9, 0x86, 0xc1, 0x1d, 0x9e,
        0xe1, 0xf8, 0x98, 0x11, 0x69, 0xd9, 0x8e, 0x94, 0x9b, 0x1e, 0x87, 0xe9, 0xce, 0x55, 0x28, 0xdf,
        0x8c, 0xa1, 0x89, 0x0d, 0xbf, 0xe6, 0x42, 0x68, 0x41, 0x99, 0x2d, 0x0f, 0xb0, 0x54, 0xbb, 0x16,
    ];
    proof {
        assert(table@ =~= sbox_table());
    }
    table[b as usize]
}

/// What the index hash returns: each little-endian byte of the index
/// substituted through the S-box, a pure function of the index alone.
pub open spec fn hash_spec(index: u64) -> u64 {
    u64::from_le_spec(Seq::new(8, |k: int| sbox_spec(index.to_le_spec()[k])))
}

/// Passes each byte of `index` through the AES S-box to provide a
/// non-linear hash.
pub fn hash(index: u64) -> (r: u64)
    ensures
        r == hash_spec(index),
{
    let mut buf: Vec<u8> = Vec::new();
    buf.push(0);
    buf.push(0);
    buf.push(0);
    buf.push(0);
    buf.push(0);
    buf.push(0);
    buf.push(0);
    buf.push(0);
    index.write_le(&mut buf, 0);
    let mut out: Vec<u8> = Vec::new();
    out.push(sbox(buf[0]));
    out.push(sbox(buf[1]));
    out.push(sbox(buf[2]));
    out.push(sbox(buf[3]));
    out.push(sbox(buf[4]));
    out.push(sbox(buf[5]));
    out.push(sbox(buf[6]));
    out.push(sbox(buf[7]));
    let r = u64::read_le(out.as_slice(), 0);
    proof {
        index.lemma_to_le_len();
        assert(out@.subrange(0, 8) =~= Seq::new(8, |k: int| sbox_spec(index.to_le_spec()[k])));
    }
    r
}

/// The index hash of this instantiation, packaged as an engine strategy.
pub struct SBoxHash;

impl IndexHash<u64> for SBoxHash {
    open spec fn hash_spec(&self, index: u64) -> u64 {
        hash_spec(index)
    }

    fn hash(&self, index: u64) -> (r: u64) {
        hash(index)
    }
}

/// The 248-byte-block cipher bound to the S-box index hash, with
/// word-granular windowing.
pub struct Algorithm2<'k, const KEY_SIZE: usize>(
    GenericCipher<'k, SBoxHash, u64, KEY_SIZE, BLOCK_SIZE>,
);

impl<'k, const KEY_BYTES: usize> Algorithm2<'k, KEY_BYTES> {
    /// An engine of this instantiation always windows word-granularly.
    pub closed spec fn wf(&self) -> bool {
        self.0.mode_spec() is WordGranular
    }

    /// The key bytes the cipher reads.
    pub closed spec fn key_spec(&self) -> Seq<u8> {
        self.0.key_spec()
    }

    /// The secret index key xored onto every block index.
    pub closed spec fn index_key_spec(&self) -> u64 {
        self.0.index_key_spec()
    }

    /// The keystream a block at `index` is xored with.
    pub closed spec fn keystream_spec(&self, index: u64) -> Seq<u8> {
        self.0.keystream_spec::<u64>(index, ELEMENT_COUNT as int)
    }

    pub fn new(key: &'k Key<KEY_BYTES>, index_key: u64) -> (r: Self)
        ensures
            r.wf(),
            r.key_spec() == key@,
            r.index_key_spec() == index_key,
            forall|index: u64| #[trigger] r.keystream_spec(index) == keystream_bytes::<u64>(
                key@,
                WindowMode::WordGranular,
                (hash_spec(index ^ index_key) as usize) as int,
                ELEMENT_COUNT as int,
            ),
    {
        Algorithm2(GenericCipher::new(SBoxHash, key, index_key))
    }

    /// Involution law: transforming a block twice with the same cipher
    /// and index restores it, whatever the key material and index key.
    pub proof fn lemma_cipher_involution(&self, index: u64, data: Seq<u8>)
        ensures
            xor_bytes(
                xor_bytes(data, self.keystream_spec(index)),
                self.keystream_spec(index),
            ) == data,
    {
        crate::algorithm::lemma_xor_bytes_involution(data, self.keystream_spec(index));
    }

    /// Encrypts or decrypts a single block using the key and `index`,
    /// in place. Because xor is used, the encryption and decryption
    /// operation is the same.
    pub fn cipher_block(&self, index: u64, block: &mut GenericCipherBlock<BLOCK_SIZE>)
        requires
            self.wf(),
            ELEMENT_COUNT as int <= key_elements::<u64>(KEY_BYTES as int),
        ensures
            final(block).0@ == xor_bytes(old(block).0@, self.keystream_spec(index)),
    {
        let mut buf: Vec<u8> = Vec::new();
        let mut i: usize = 0;
        while i < BLOCK_SIZE
            invariant
                i <= BLOCK_SIZE,
                buf@.len() == i,
                block.0@ == old(block).0@,
                forall|t: int| 0 <= t < i ==> buf@[t] == block.0@[t],
            decreases BLOCK_SIZE - i,
        {
            buf.push(block.0[i]);
            i += 1;
        }
        proof {
            assert(buf@ =~= old(block).0@);
        }
        let mut cref = CipherBlockRef::<BLOCK_SIZE, 8>::new(buf);
        self.0.cipher_block::<ELEMENT_COUNT, 8, u64>(index, &mut cref);
        let v = cref.into_vec();
        let ghost out = xor_bytes(old(block).0@, self.keystream_spec(index));
        let mut i: usize = 0;
        while i < BLOCK_SIZE
            invariant
                i <= BLOCK_SIZE,
                v@ == out,
                out.len() == BLOCK_SIZE,
                forall|t: int| 0 <= t < i ==> block.0@[t] == out[t],
            decreases BLOCK_SIZE - i,
        {
            block.0[i] = v[i];
            i += 1;
        }
        proof {
            assert(block.0@ =~= out);
        }
    }
}


/// Serializes the payload words little-endian into one byte buffer.
fn words_to_bytes(ws: &[u64; ELEMENT_COUNT]) -> (r: Vec<u8>)
    ensures
        r@ == words_le_bytes::<u64>(ws@),
{
    let mut buf: Vec<u8> = Vec::new();
    let mut i: usize = 0;
    while i < BLOCK_SIZE
        invariant
            i <= BLOCK_SIZE,
            buf@.len() == i,
        decreases BLOCK_SIZE - i,
    {
        buf.push(0);
        i += 1;
    }
    let mut t: usize = 0;
    while t < ELEMENT_COUNT
        invariant
            t <= ELEMENT_COUNT,
            buf@.len() == BLOCK_SIZE,
            forall|j: int| 0 <= j < 8 * t ==> buf@[j] == words_le_bytes::<u64>(ws@)[j],
        decreases ELEMENT_COUNT - t,
    {
        ws[t].write_le(&mut buf, t * 8);
        proof {
            ws@[t as int].lemma_to_le_len();
            let ghost tw = ws@[t as int];
            assert forall|m: int| 0 <= m < 8 implies words_le_bytes::<u64>(ws@)[t * 8 + m]
                == tw.to_le_spec()[m] by {
                vstd::arithmetic::div_mod::lemma_fundamental_div_mod_converse(
                    t * 8 + m,
                    8,
                    t as int,
                    m,
                );
            }
        }
        t += 1;
    }
    proof {
        assert(buf@ =~= words_le_bytes::<u64>(ws@));
    }
    buf
}

/// Reads the payload words back out of one byte buffer.
fn words_from_bytes(bytes: &[u8]) -> (r: [u64; ELEMENT_COUNT])
    requires
        bytes@.len() == BLOCK_SIZE,
    ensures
        forall|t: int|
            0 <= t < ELEMENT_COUNT ==> r@[t] == u64::from_le_spec(
                bytes@.subrange(8 * t, 8 * t + 8),
            ),
        words_le_bytes::<u64>(r@) == bytes@,
{
    let mut data: [u64; ELEMENT_COUNT] = [0u64; ELEMENT_COUNT];
    let mut t: usize = 0;
    while t < ELEMENT_COUNT
        invariant
            t <= ELEMENT_COUNT,
            bytes@.len() == BLOCK_SIZE,
            forall|u: int|
                0 <= u < t ==> data@[u] == u64::from_le_spec(bytes@.subrange(8 * u, 8 * u + 8)),
        decreases ELEMENT_COUNT - t,
    {
        data[t] = u64::read_le(bytes, t * 8);
        proof {
            assert(bytes@.subrange(t as int * 8, t as int * 8 + 8) =~= bytes@.subrange(
                8 * t as int,
                8 * t as int + 8,
            ));
        }
        t += 1;
    }
    proof {
        assert forall|j: int| 0 <= j < BLOCK_SIZE implies words_le_bytes::<u64>(data@)[j]
            == bytes@[j] by {
            let u = j / 8;
            let m = j % 8;
            vstd::arithmetic::div_mod::lemma_fundamental_div_mod(j, 8);
            assert(0 <= m < 8);
            assert(0 <= u < ELEMENT_COUNT) by (nonlinear_arith)
                requires
                    0 <= j < 248,
                    u == j / 8,
            ;
            u64::lemma_to_from(bytes@.subrange(8 * u, 8 * u + 8));
        }
        u64::lemma_size();
        assert(words_le_bytes::<u64>(data@) =~= bytes@);
    }
    data
}

/// A wire record bundling a transmitted index with its encrypted
/// payload, for the 248-byte-payload configuration: 256 bytes in all,
/// 8-byte aligned, read and written as raw bytes for send and receive.
pub struct IndexedBlock {
    index: u64,
    data: [u64; ELEMENT_COUNT],
}

impl IndexedBlock {
    /// The transmitted index field.
    pub closed spec fn index_spec(&self) -> u64 {
        self.index
    }

    /// The payload words.
    pub closed spec fn data_spec(&self) -> Seq<u64> {
        self.data@
    }

    /// The record as wire bytes: the index field, then the payload
    /// words, all little-endian.
    pub open spec fn wire_spec(&self) -> Seq<u8> {
        self.index_spec().to_le_spec() + words_le_bytes::<u64>(self.data_spec())
    }

    pub fn new() -> (r: Self)
        ensures
            r.index_spec() == 0,
            r.data_spec() == Seq::new(ELEMENT_COUNT as nat, |t: int| 0u64),
    {
        let r = IndexedBlock { index: 0, data: [0u64; ELEMENT_COUNT] };
        proof {
            assert(r.data@ =~= Seq::new(ELEMENT_COUNT as nat, |t: int| 0u64));
        }
        r
    }

    /// The payload, read-only.
    pub fn data(&self) -> (r: &[u64; ELEMENT_COUNT])
        ensures
            r@ == self.data_spec(),
    {
        &self.data
    }

    /// The payload, for filling a message in before ciphering.
    pub fn data_mut(&mut self) -> (r: &mut [u64; ELEMENT_COUNT])
        ensures
            r@ == old(self).data_spec(),
            final(self).data_spec() == final(r)@,
            final(self).index_spec() == old(self).index_spec(),
    {
        &mut self.data
    }

    /// The transmitted index.
    pub fn index(&mut self) -> (r: u64)
        ensures
            r == old(self).index_spec(),
            *final(self) == *old(self),
    {
        self.index
    }

    /// Returns this entire record as bytes, suitable for transmitting.
    pub fn as_bytes(&self) -> (r: Vec<u8>)
        ensures
            r@ == self.wire_spec(),
    {
        let mut buf: Vec<u8> = Vec::new();
        let mut i: usize = 0;
        while i < 8
            invariant
                i <= 8,
                buf@.len() == i,
            decreases 8 - i,
        {
            buf.push(0);
            i += 1;
        }
        self.index.write_le(&mut buf, 0);
        let mut words = words_to_bytes(&self.data);
        buf.append(&mut words);
        proof {
            self.index_spec().lemma_to_le_len();
            assert(buf@ =~= self.wire_spec());
        }
        buf
    }

    /// Builds a record back from received wire bytes.
    pub fn from_bytes(bytes: &[u8]) -> (r: Self)
        requires
            bytes@.len() == 8 + BLOCK_SIZE,
        ensures
            r.wire_spec() == bytes@,
    {
        let index = u64::read_le(bytes, 0);
        let rest = vstd::slice::slice_subrange(bytes, 8, 8 + BLOCK_SIZE);
        let data = words_from_bytes(rest);
        let r = IndexedBlock { index, data };
        proof {
            u64::lemma_to_from(bytes@.subrange(0, 8));
            index.lemma_to_le_len();
            assert(r.wire_spec() =~= bytes@);
        }
        r
    }

    /// Encrypts or decrypts the payload in place, with the record's own
    /// index selecting the key window.
    pub fn do_cipher<const KEY_SIZE: usize>(&mut self, cipher: &Algorithm2<'_, KEY_SIZE>)
        requires
            cipher.wf(),
            ELEMENT_COUNT as int <= key_elements::<u64>(KEY_SIZE as int),
        ensures
            final(self).index_spec() == old(self).index_spec(),
            forall|t: int|
                0 <= t < ELEMENT_COUNT ==> final(self).data_spec()[t] == u64::from_le_spec(
                    xor_bytes(
                        words_le_bytes::<u64>(old(self).data_spec()),
                        cipher.keystream_spec(old(self).index_spec()),
                    ).subrange(8 * t, 8 * t + 8),
                ),
            words_le_bytes::<u64>(final(self).data_spec()) == xor_bytes(
                words_le_bytes::<u64>(old(self).data_spec()),
                cipher.keystream_spec(old(self).index_spec()),
            ),
    {
        let buf = words_to_bytes(&self.data);
        let mut cref = CipherBlockRef::<BLOCK_SIZE, 8>::new(buf);
        cipher.0.cipher_block::<ELEMENT_COUNT, 8, u64>(self.index, &mut cref);
        let v = cref.into_vec();
        self.data = words_from_bytes(v.as_slice());
    }
}

} // verus!
