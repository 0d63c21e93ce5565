//! The generic cipher engine: word-wise exclusive-or of a block with a
//! window of the key material, at an offset derived from a hashed index.

use crate::key::{key_elements, window_base, word_at, Key, Word};
use vstd::prelude::*;

verus! {

/// Bytewise exclusive-or of `data` with a keystream `ks`.
/// Bytes of `data` past the end of `ks` are unchanged.
pub open spec fn xor_bytes(data: Seq<u8>, ks: Seq<u8>) -> Seq<u8> {
    Seq::new(data.len(), |j: int| if j < ks.len() { data[j] ^ ks[j] } else { data[j] })
}

/// Xoring twice with the same keystream restores the data, whatever the
/// keystream is: the cipher transform is an involution.
pub proof fn lemma_xor_bytes_involution(data: Seq<u8>, ks: Seq<u8>)
    ensures
        xor_bytes(xor_bytes(data, ks), ks) == data,
{
    let twice = xor_bytes(xor_bytes(data, ks), ks);
    assert forall|j: int| 0 <= j < data.len() implies twice[j] == data[j] by {
        if j < ks.len() {
            let d = data[j];
            let k = ks[j];
            assert((d ^ k) ^ k == d) by (bit_vector);
        }
    }
    assert(twice =~= data);
}

/// The little-endian bytes of a word sequence, concatenated.
pub open spec fn words_le_bytes<W: Word>(ws: Seq<W>) -> Seq<u8> {
    Seq::new(
        ws.len() * W::size_spec() as nat,
        |j: int| ws[j / W::size_spec() as int].to_le_spec()[j % W::size_spec() as int],
    )
}

/// A fixed-width unsigned integer usable as a block index.
pub trait Index: Sized + Copy {
    /// Bitwise exclusive-or.
    spec fn xor_spec(self, other: Self) -> Self;

    /// The index widened (or on a narrow platform truncated) to a word
    /// offset.
    spec fn to_usize_spec(self) -> usize;

    fn xor(self, other: Self) -> (r: Self)
        ensures
            r == self.xor_spec(other),
    ;

    fn to_usize(self) -> (r: usize)
        ensures
            r == self.to_usize_spec(),
    ;
}

impl Index for u32 {
    open spec fn xor_spec(self, other: u32) -> u32 {
        self ^ other
    }

    open spec fn to_usize_spec(self) -> usize {
        self as usize
    }

    fn xor(self, other: u32) -> (r: u32) {
        self ^ other
    }

    fn to_usize(self) -> (r: usize) {
        self as usize
    }
}

impl Index for u64 {
    open spec fn xor_spec(self, other: u64) -> u64 {
        self ^ other
    }

    open spec fn to_usize_spec(self) -> usize {
        self as usize
    }

    fn xor(self, other: u64) -> (r: u64) {
        self ^ other
    }

    fn to_usize(self) -> (r: usize) {
        #[verifier::truncate] (self as usize)
    }
}

/// A deterministic hash scrambling a block index before it selects a key
/// window.
pub trait IndexHash<I: Index> {
    /// What the hash returns; a pure function of the index.
    spec fn hash_spec(&self, index: I) -> I;

    fn hash(&self, index: I) -> (r: I)
        ensures
            r == self.hash_spec(index),
    ;
}

/// How the key window for a block is selected; fixed when the engine is
/// built.
#[derive(Clone, Copy)]
pub enum WindowMode {
    /// The window offset is a word index; the default.
    WordGranular,
    /// The window offset is a bit position: each block word combines the
    /// high bits of one key word with the low bits of the next. Slower,
    /// but with a denser keyspace.
    BitGranular,
}

/// A cipher block: a fixed-size byte buffer transformed in place. The
/// transform is an involution, so there is no separate plaintext or
/// ciphertext type.
pub struct GenericCipherBlock<const N: usize>(pub [u8; N]);

impl<const N: usize> GenericCipherBlock<N> {
    pub fn new(buf: [u8; N]) -> (r: Self)
        ensures
            r.0@ == buf@,
    {
        GenericCipherBlock(buf)
    }

    /// The block's bytes, for inspection or transmission.
    pub fn bytes(&self) -> (r: &[u8])
        ensures
            r@ == self.0@,
    {
        self.0.as_slice()
    }
}

/// A block buffer validated against the engine's block size `N`; `A` is
/// the alignment the chosen word type must offer.
pub struct CipherBlockRef<const N: usize, const A: usize> {
    data: Vec<u8>,
}

impl<const N: usize, const A: usize> View for CipherBlockRef<N, A> {
    type V = Seq<u8>;

    closed spec fn view(&self) -> Seq<u8> {
        self.data@
    }
}

impl<const N: usize, const A: usize> CipherBlockRef<N, A> {
    pub open spec fn wf(&self) -> bool {
        self@.len() == N
    }

    /// Wraps a block buffer whose length matches the block size.
    pub fn new(buf: Vec<u8>) -> (r: Self)
        requires
            buf@.len() == N,
        ensures
            r.wf(),
            r@ == buf@,
    {
        CipherBlockRef { data: buf }
    }

    /// Hands the buffer back, e.g. after it has been transformed.
    pub fn into_vec(self) -> (r: Vec<u8>)
        ensures
            r@ == self@,
    {
        self.data
    }
}

/// The keystream an `l`-word block is xored with, given the key bytes,
/// the windowing mode and the hashed word offset. In word-granular mode
/// the window starts at a wrapped word index; in bit-granular mode it
/// starts at a wrapped bit position and each keystream word straddles two
/// adjacent key words.
pub open spec fn keystream_bytes<W: Word>(
    key: Seq<u8>,
    mode: WindowMode,
    offset: int,
    l: int,
) -> Seq<u8> {
    match mode {
        WindowMode::WordGranular => {
            let base = window_base::<W>(key.len() as int, l, offset);
            words_le_bytes::<W>(Seq::new(l as nat, |i: int| word_at::<W>(key, base + i)))
        },
        WindowMode::BitGranular => {
            let wb = 8 * W::size_spec() as int;
            let max_bit = (key_elements::<W>(key.len() as int) - l) * wb;
            let bit_offset = offset % max_bit;
            let w0 = bit_offset / wb;
            let bo = bit_offset % wb;
            words_le_bytes::<W>(
                Seq::new(
                    l as nat,
                    |i: int|
                        W::straddle_spec(
                            word_at::<W>(key, w0 + i),
                            word_at::<W>(key, w0 + i + 1),
                            bo as usize,
                        ),
                ),
            )
        },
    }
}

/// The cipher engine: a reference to the key material, the index hash,
/// a secret per-instance index key, and the windowing strategy.
pub struct GenericCipher<
    'k,
    H: IndexHash<IndexTy>,
    IndexTy: Index,
    const KEY_BYTES: usize,
    const BLOCK_BYTES: usize,
> {
    hash: H,
    key: &'k Key<KEY_BYTES>,
    index_key: IndexTy,
    mode: WindowMode,
}

impl<
    'k,
    H: IndexHash<IndexTy>,
    IndexTy: Index,
    const KEY_BYTES: usize,
    const BLOCK_BYTES: usize,
> GenericCipher<'k, H, IndexTy, KEY_BYTES, BLOCK_BYTES> {
    /// The bytes of the key material this engine reads.
    pub closed spec fn key_spec(&self) -> Seq<u8> {
        self.key@
    }

    /// The secret index key xored onto every block index.
    pub closed spec fn index_key_spec(&self) -> IndexTy {
        self.index_key
    }

    /// The windowing strategy this engine was built with.
    pub closed spec fn mode_spec(&self) -> WindowMode {
        self.mode
    }

    /// What this engine's hash returns for `index`.
    pub closed spec fn hash_of(&self, index: IndexTy) -> IndexTy {
        self.hash.hash_spec(index)
    }

    /// The word offset the block at `index` selects: the index is masked
    /// with the secret index key first, so an observer of the hash input
    /// cannot recover the true index, then hashed and widened.
    pub open spec fn masked_offset_spec(&self, index: IndexTy) -> usize {
        self.hash_of(index.xor_spec(self.index_key_spec())).to_usize_spec()
    }

    /// The keystream the block at `index` is xored with.
    pub open spec fn keystream_spec<W: Word>(&self, index: IndexTy, l: int) -> Seq<u8> {
        keystream_bytes::<W>(
            self.key_spec(),
            self.mode_spec(),
            self.masked_offset_spec(index) as int,
            l,
        )
    }

    /// Builds an engine with the default word-granular windowing.
    pub fn new(hash: H, key: &'k Key<KEY_BYTES>, index_key: IndexTy) -> (r: Self)
        ensures
            r.key_spec() == key@,
            r.index_key_spec() == index_key,
            r.mode_spec() == WindowMode::WordGranular,
            forall|i: IndexTy| #[trigger] r.hash_of(i) == hash.hash_spec(i),
    {
        GenericCipher { hash, key, index_key, mode: WindowMode::WordGranular }
    }

    /// Builds an engine with an explicit windowing strategy.
    pub fn with_mode(hash: H, key: &'k Key<KEY_BYTES>, index_key: IndexTy, mode: WindowMode) -> (r:
        Self)
        ensures
            r.key_spec() == key@,
            r.index_key_spec() == index_key,
            r.mode_spec() == mode,
            forall|i: IndexTy| #[trigger] r.hash_of(i) == hash.hash_spec(i),
    {
        GenericCipher { hash, key, index_key, mode }
    }

    /// Involution law: xoring a block twice with the keystream of the
    /// same engine and index restores it, whatever the key material,
    /// index key, hash and mode are. Encryption and decryption are the
    /// same call.
    pub proof fn lemma_involution<W: Word>(&self, index: IndexTy, data: Seq<u8>, l: int)
        ensures
            xor_bytes(
                xor_bytes(data, self.keystream_spec::<W>(index, l)),
                self.keystream_spec::<W>(index, l),
            ) == data,
    {
        lemma_xor_bytes_involution(data, self.keystream_spec::<W>(index, l));
    }
}

/// Xors each word of `data` with the matching keystream word, in place:
/// afterwards `data` is the bytewise xor of its old value with the bytes
/// of `ks`. Bytes past the keystream are untouched.
fn apply_keystream<W: Word>(data: &mut Vec<u8>, ks: &Vec<W>)
    requires
        ks@.len() * W::size_spec() <= old(data)@.len(),
    ensures
        final(data)@ == xor_bytes(old(data)@, words_le_bytes::<W>(ks@)),
{
    proof {
        W::lemma_size();
        assert(data.len() == data@.len());
    }
    let s = W::size();
    let l = ks.len();
    let ghost orig = data@;
    let ghost ksb = words_le_bytes::<W>(ks@);
    let mut i: usize = 0;
    while i < l
        invariant
            s == W::size_spec(),
            1 <= s <= 8,
            l == ks@.len(),
            l * s <= orig.len(),
            orig.len() <= usize::MAX,
            data@.len() == orig.len(),
            ksb == words_le_bytes::<W>(ks@),
            ksb.len() == l * s,
            i <= l,
            forall|j: int| 0 <= j < i * s ==> data@[j] == xor_bytes(orig, ksb)[j],
            forall|j: int| i * s <= j < orig.len() ==> data@[j] == orig[j],
        decreases l - i,
    {
        proof {
            assert((i + 1) * s <= l * s && i * s + s == (i + 1) * s && 0 <= i * s)
                by (nonlinear_arith)
                requires
                    i < l,
                    1 <= s,
            ;
        }
        let ghost oi = i as int * s as int;
        let ghost pre = data@;
        let ghost kword = ks@[i as int];
        let w = W::read_le(data.as_slice(), i * s);
        proof {
            assert(pre.subrange(oi, oi + s) =~= orig.subrange(oi, oi + s));
        }
        let x = w.xor(ks[i]);
        x.write_le(data, i * s);
        proof {
            let sub = orig.subrange(oi, oi + s);
            W::lemma_to_from(sub);
            W::lemma_xor_to_le(w, kword);
            w.lemma_to_le_len();
            kword.lemma_to_le_len();
            x.lemma_to_le_len();
            assert forall|m: int| 0 <= m < s implies ksb[oi + m] == kword.to_le_spec()[m] by {
                vstd::arithmetic::div_mod::lemma_fundamental_div_mod_converse(
                    oi + m,
                    s as int,
                    i as int,
                    m,
                );
            }
            assert forall|j: int| 0 <= j < (i + 1) * s implies data@[j] == xor_bytes(orig, ksb)[j]
                by {
                if oi <= j < oi + s {
                    let m = j - oi;
                    assert(data@[oi + m] == x.to_le_spec()[m]);
                    assert(x.to_le_spec()[m] == (w.to_le_spec()[m] ^ kword.to_le_spec()[m]));
                    assert(w.to_le_spec()[m] == sub[m]);
                    assert(sub[m] == orig[oi + m]);
                }
            }
        }
        i += 1;
    }
    proof {
        assert(data@ =~= xor_bytes(orig, ksb));
    }
}

/// Builds the bit-granular keystream words: word `i` combines the high
/// bits of key word `w0 + i` with the low bits of key word `w0 + i + 1`,
/// split at bit `bo`.
fn straddle_words<W: Word>(all: &Vec<W>, w0: usize, bo: usize, l: usize) -> (r: Vec<W>)
    requires
        l > 0 ==> w0 + l < all@.len(),
        bo < 8 * W::size_spec(),
    ensures
        r@.len() == l,
        forall|i: int|
            0 <= i < l ==> r@[i] == W::straddle_spec(all@[w0 + i], all@[w0 + i + 1], bo),
{
    proof {
        W::lemma_size();
        assert(all.len() == all@.len());
    }
    let mut r: Vec<W> = Vec::new();
    let mut i: usize = 0;
    while i < l
        invariant
            i <= l,
            r@.len() == i,
            l > 0 ==> w0 + l < all@.len(),
            all@.len() <= usize::MAX,
            bo < 8 * W::size_spec(),
            forall|t: int|
                0 <= t < i ==> r@[t] == W::straddle_spec(all@[w0 + t], all@[w0 + t + 1], bo),
        decreases l - i,
    {
        let w = W::straddle(all[w0 + i], all[w0 + i + 1], bo);
        r.push(w);
        i += 1;
    }
    r
}

impl<
    'k,
    H: IndexHash<IndexTy>,
    IndexTy: Index,
    const KEY_BYTES: usize,
    const BLOCK_BYTES: usize,
> GenericCipher<'k, H, IndexTy, KEY_BYTES, BLOCK_BYTES> {
    /// Performs encryption or decryption of a single block, in place.
    ///
    /// `L` is the number of words of type `W` in a block, so it must be
    /// `BLOCK_BYTES / size_of(W)`, and `W` must offer at least the
    /// alignment `A` the block was declared with; both are configuration
    /// contracts, checked before any mutation. The word-granular mode
    /// needs a window of `L` words inside the key; the bit-granular mode
    /// reads one word past the window and measures offsets in bits, so it
    /// needs a strictly shorter window and a key with a representable bit
    /// count.
    ///
    /// Because the transform is xor with a keystream that depends only on
    /// the engine and the index, the same call encrypts and decrypts.
    pub fn cipher_block<const L: usize, const A: usize, W: Word>(
        &self,
        index: IndexTy,
        block: &mut CipherBlockRef<BLOCK_BYTES, A>,
    )
        requires
            old(block).wf(),
            L as int == BLOCK_BYTES as int / W::size_spec() as int,
            A <= W::align_spec(),
            self.mode_spec() is WordGranular ==> L as int <= key_elements::<W>(KEY_BYTES as int),
            self.mode_spec() is BitGranular ==> key_elements::<W>(KEY_BYTES as int) > L as int,
            self.mode_spec() is BitGranular ==> KEY_BYTES <= usize::MAX / 8,
        ensures
            final(block).wf(),
            final(block)@ == xor_bytes(old(block)@, self.keystream_spec::<W>(index, L as int)),
    {
        proof {
            W::lemma_size();
            self.key.lemma_len();
            let s = W::size_spec() as int;
            vstd::arithmetic::div_mod::lemma_fundamental_div_mod(BLOCK_BYTES as int, s);
            assert(L as int * s <= BLOCK_BYTES as int) by (nonlinear_arith)
                requires
                    L as int == BLOCK_BYTES as int / s,
                    1 <= s,
            ;
        }
        // Mask the index before hashing, so that an observer of the hash
        // input cannot recover the true index without the secret key.
        let masked = index.xor(self.index_key);
        let hashed = self.hash.hash(masked);
        let offset = hashed.to_usize();
        let ghost ks = self.keystream_spec::<W>(index, L as int);
        match self.mode {
            WindowMode::WordGranular => {
                let kw = self.key.subkey::<W, L>(offset);
                proof {
                    assert(kw@ =~= Seq::new(
                        L as nat,
                        |i: int|
                            word_at::<W>(
                                self.key_spec(),
                                window_base::<W>(KEY_BYTES as int, L as int, offset as int) + i,
                            ),
                    ));
                    assert(ks == words_le_bytes::<W>(kw@));
                }
                apply_keystream::<W>(&mut block.data, &kw);
            },
            WindowMode::BitGranular => {
                let all = self.key.as_words::<W>();
                let s = W::size();
                let wb = 8 * s;
                let max_element = all.len() - L;
                proof {
                    lemma_bit_window_fits::<W>(KEY_BYTES as int, L as int);
                }
                let max_bit = max_element * wb;
                let bit_offset = offset % max_bit;
                let w0 = bit_offset / wb;
                let bo = bit_offset % wb;
                proof {
                    assert(w0 < max_element && w0 * wb <= bit_offset) by (nonlinear_arith)
                        requires
                            w0 == bit_offset / wb,
                            0 <= bit_offset < max_element * wb,
                            1 <= wb,
                    ;
                }
                let kw = straddle_words::<W>(&all, w0, bo, L);
                proof {
                    assert(kw@ =~= Seq::new(
                        L as nat,
                        |i: int|
                            W::straddle_spec(
                                word_at::<W>(self.key_spec(), w0 + i),
                                word_at::<W>(self.key_spec(), w0 + i + 1),
                                bo,
                            ),
                    ));
                    assert(ks == words_le_bytes::<W>(kw@));
                }
                apply_keystream::<W>(&mut block.data, &kw);
            },
        }
    }
}

/// In the bit-granular mode the count of usable start bits is positive,
/// and the byte count of the key keeps all bit arithmetic inside `usize`.
proof fn lemma_bit_window_fits<W: Word>(n: int, l: int)
    requires
        0 <= l < key_elements::<W>(n),
        0 <= n <= usize::MAX / 8,
        1 <= W::size_spec() <= 8,
    ensures
        1 <= (key_elements::<W>(n) - l) * (8 * W::size_spec() as int),
        (key_elements::<W>(n) - l) * (8 * W::size_spec() as int) <= usize::MAX,
{
    let s = W::size_spec() as int;
    let ke = key_elements::<W>(n);
    let wb = 8 * s;
    assert(1 * 1 <= (ke - l) * wb && (ke - l) * wb <= ke * wb) by (nonlinear_arith)
        requires
            1 <= ke - l,
            1 <= wb,
            0 <= l,
    ;
    assert(ke * s <= n) by {
        vstd::arithmetic::div_mod::lemma_fundamental_div_mod(n, s);
    }
    assert(ke * wb == 8 * (ke * s)) by (nonlinear_arith)
        requires
            wb == 8 * s,
    ;
    assert(8 * (ke * s) <= 8 * n) by (nonlinear_arith)
        requires
            ke * s <= n,
    ;
    assert(8 * (usize::MAX as int / 8) <= usize::MAX as int) by {
        vstd::arithmetic::div_mod::lemma_fundamental_div_mod(usize::MAX as int, 8);
    }
}

} // verus!
