//! Key material and the word capability.
//!
//! A `Key<N>` is an `N`-byte secret buffer, immutable after construction.
//! The buffer is read as an array of fixed-width words; a subkey is a
//! window of contiguous words selected by an offset with modular
//! wraparound, so every access stays inside the buffer.

use vstd::prelude::*;

verus! {

/// A type usable as a word in a block or key: a fixed-width integer of at
/// most 8 bytes whose value is exactly its little-endian byte view, with
/// exclusive-or and bit-shift combination.
pub trait Word: Sized + Copy {
    /// Width of the word in bytes.
    spec fn size_spec() -> usize;

    /// Alignment the word type asks of a buffer it is read from.
    spec fn align_spec() -> usize;

    /// The word whose little-endian bytes are `s`.
    spec fn from_le_spec(s: Seq<u8>) -> Self;

    /// The little-endian bytes of the word.
    spec fn to_le_spec(self) -> Seq<u8>;

    /// Bitwise exclusive-or.
    spec fn xor_spec(self, other: Self) -> Self;

    /// The word read at bit position `bit` of the pair `(lo, hi)`: the high
    /// bits of `lo` from `bit` up, continued into the low bits of `hi`.
    spec fn straddle_spec(lo: Self, hi: Self, bit: usize) -> Self;

    proof fn lemma_size()
        ensures
            1 <= Self::size_spec() <= 8,
            1 <= Self::align_spec() <= 8,
    ;

    proof fn lemma_to_le_len(self)
        ensures
            self.to_le_spec().len() == Self::size_spec(),
    ;

    /// Reading a word from bytes and writing it back reproduces the bytes.
    proof fn lemma_to_from(s: Seq<u8>)
        requires
            s.len() == Self::size_spec(),
        ensures
            Self::from_le_spec(s).to_le_spec() == s,
    ;

    /// Writing a word out and reading it back reproduces the word.
    proof fn lemma_from_to(self)
        ensures
            Self::from_le_spec(self.to_le_spec()) == self,
    ;

    /// Exclusive-or of words is exclusive-or of their bytes.
    proof fn lemma_xor_to_le(self, other: Self)
        ensures
            forall|m: int|
                0 <= m < Self::size_spec() ==> #[trigger] self.xor_spec(other).to_le_spec()[m]
                    == (self.to_le_spec()[m] ^ other.to_le_spec()[m]),
    ;

    fn size() -> (r: usize)
        ensures
            r == Self::size_spec(),
            1 <= r <= 8,
    ;

    fn xor(self, other: Self) -> (r: Self)
        ensures
            r == self.xor_spec(other),
    ;

    fn straddle(lo: Self, hi: Self, bit: usize) -> (r: Self)
        requires
            bit < 8 * Self::size_spec(),
        ensures
            r == Self::straddle_spec(lo, hi, bit),
    ;

    fn read_le(bytes: &[u8], offset: usize) -> (r: Self)
        requires
            offset + Self::size_spec() <= bytes@.len(),
        ensures
            r == Self::from_le_spec(
                bytes@.subrange(offset as int, offset as int + Self::size_spec() as int),
            ),
    ;

    fn write_le(self, bytes: &mut Vec<u8>, offset: usize)
        requires
            offset + Self::size_spec() <= old(bytes)@.len(),
        ensures
            final(bytes)@.len() == old(bytes)@.len(),
            forall|j: int|
                0 <= j < old(bytes)@.len() && !(offset <= j < offset + Self::size_spec())
                    ==> final(bytes)@[j] == old(bytes)@[j],
            forall|m: int|
                0 <= m < Self::size_spec() ==> final(bytes)@[offset + m] == self.to_le_spec()[m],
    ;
}

impl Word for u8 {
    open spec fn size_spec() -> usize {
        1
    }

    open spec fn align_spec() -> usize {
        1
    }

    open spec fn from_le_spec(s: Seq<u8>) -> u8 {
        s[0]
    }

    open spec fn to_le_spec(self) -> Seq<u8> {
        seq![self]
    }

    open spec fn xor_spec(self, other: u8) -> u8 {
        self ^ other
    }

    open spec fn straddle_spec(lo: u8, hi: u8, bit: usize) -> u8 {
        if bit == 0 {
            lo
        } else {
            (lo >> bit) | (hi << (8 - bit))
        }
    }

    proof fn lemma_size() {
    }

    proof fn lemma_to_le_len(self) {
    }

    proof fn lemma_to_from(s: Seq<u8>) {
        assert(Self::from_le_spec(s).to_le_spec() =~= s);
    }

    proof fn lemma_from_to(self) {
    }

    proof fn lemma_xor_to_le(self, other: u8) {
    }

    fn size() -> (r: usize) {
        1
    }

    fn xor(self, other: u8) -> (r: u8) {
        self ^ other
    }

    fn straddle(lo: u8, hi: u8, bit: usize) -> (r: u8) {
        if bit == 0 {
            lo
        } else {
            (lo >> bit) | (hi << (8 - bit))
        }
    }

    fn read_le(bytes: &[u8], offset: usize) -> (r: u8) {
        bytes[offset]
    }

    fn write_le(self, bytes: &mut Vec<u8>, offset: usize) {
        bytes.set(offset, self);
    }
}

impl Word for u16 {
    open spec fn size_spec() -> usize {
        2
    }

    open spec fn align_spec() -> usize {
        2
    }

    open spec fn from_le_spec(s: Seq<u8>) -> u16 {
        (s[0] as u16) | ((s[1] as u16) << 8)
    }

    open spec fn to_le_spec(self) -> Seq<u8> {
        seq![(self & 0xff) as u8, ((self >> 8) & 0xff) as u8]
    }

    open spec fn xor_spec(self, other: u16) -> u16 {
        self ^ other
    }

    open spec fn straddle_spec(lo: u16, hi: u16, bit: usize) -> u16 {
        if bit == 0 {
            lo
        } else {
            (lo >> bit) | (hi << (16 - bit))
        }
    }

    proof fn lemma_size() {
    }

    proof fn lemma_to_le_len(self) {
    }

    proof fn lemma_to_from(s: Seq<u8>) {
        let b0 = s[0];
        let b1 = s[1];
        let x = Self::from_le_spec(s);
        assert((x & 0xff) as u8 == b0 && ((x >> 8) & 0xff) as u8 == b1) by (bit_vector)
            requires
                x == (b0 as u16) | ((b1 as u16) << 8),
        ;
        assert(x.to_le_spec() =~= s);
    }

    proof fn lemma_from_to(self) {
        let w = self;
        assert(w == (((w & 0xff) as u8) as u16) | ((((w >> 8) & 0xff) as u8) as u16) << 8)
            by (bit_vector);
    }

    proof fn lemma_xor_to_le(self, other: u16) {
        let a = self;
        let b = other;
        assert(((a ^ b) & 0xff) as u8 == (((a & 0xff) as u8) ^ ((b & 0xff) as u8)) && (((a ^ b)
            >> 8) & 0xff) as u8 == ((((a >> 8) & 0xff) as u8) ^ (((b >> 8) & 0xff) as u8)))
            by (bit_vector);
    }

    fn size() -> (r: usize) {
        2
    }

    fn xor(self, other: u16) -> (r: u16) {
        self ^ other
    }

    fn straddle(lo: u16, hi: u16, bit: usize) -> (r: u16) {
        if bit == 0 {
            lo
        } else {
            (lo >> bit) | (hi << (16 - bit))
        }
    }

    fn read_le(bytes: &[u8], offset: usize) -> (r: u16) {
        (bytes[offset] as u16) | ((bytes[offset + 1] as u16) << 8)
    }

    fn write_le(self, bytes: &mut Vec<u8>, offset: usize) {
        proof {
            assert(bytes.len() == bytes@.len());
        }
        bytes.set(offset, #[verifier::truncate] (self as u8));
        bytes.set(offset + 1, #[verifier::truncate] ((self >> 8) as u8));
        proof {
            let v = self;
            assert(v as u8 == (v & 0xff) as u8 && (v >> 8) as u8 == ((v >> 8) & 0xff) as u8)
                by (bit_vector);
        }
    }
}

impl Word for u32 {
    open spec fn size_spec() -> usize {
        4
    }

    open spec fn align_spec() -> usize {
        4
    }

    open spec fn from_le_spec(s: Seq<u8>) -> u32 {
        (s[0] as u32) | ((s[1] as u32) << 8) | ((s[2] as u32) << 16) | ((s[3] as u32) << 24)
    }

    open spec fn to_le_spec(self) -> Seq<u8> {
        seq![
            (self & 0xff) as u8,
            ((self >> 8) & 0xff) as u8,
            ((self >> 16) & 0xff) as u8,
            ((self >> 24) & 0xff) as u8,
        ]
    }

    open spec fn xor_spec(self, other: u32) -> u32 {
        self ^ other
    }

    open spec fn straddle_spec(lo: u32, hi: u32, bit: usize) -> u32 {
        if bit == 0 {
            lo
        } else {
            (lo >> bit) | (hi << (32 - bit))
        }
    }

    proof fn lemma_size() {
    }

    proof fn lemma_to_le_len(self) {
    }

    proof fn lemma_to_from(s: Seq<u8>) {
        let b0 = s[0];
        let b1 = s[1];
        let b2 = s[2];
        let b3 = s[3];
        let x = Self::from_le_spec(s);
        assert((x & 0xff) as u8 == b0 && ((x >> 8) & 0xff) as u8 == b1 && ((x >> 16) & 0xff) as u8
            == b2 && ((x >> 24) & 0xff) as u8 == b3) by (bit_vector)
            requires
                x == (b0 as u32) | ((b1 as u32) << 8) | ((b2 as u32) << 16) | ((b3 as u32) << 24),
        ;
        assert(x.to_le_spec() =~= s);
    }

    proof fn lemma_from_to(self) {
        let w = self;
        assert(w == (((w & 0xff) as u8) as u32) | ((((w >> 8) & 0xff) as u8) as u32) << 8 | ((((w
            >> 16) & 0xff) as u8) as u32) << 16 | ((((w >> 24) & 0xff) as u8) as u32) << 24)
            by (bit_vector);
    }

    proof fn lemma_xor_to_le(self, other: u32) {
        let a = self;
        let b = other;
        assert(((a ^ b) & 0xff) as u8 == (((a & 0xff) as u8) ^ ((b & 0xff) as u8)) && (((a ^ b)
            >> 8) & 0xff) as u8 == ((((a >> 8) & 0xff) as u8) ^ (((b >> 8) & 0xff) as u8)) && (((a
            ^ b) >> 16) & 0xff) as u8 == ((((a >> 16) & 0xff) as u8) ^ (((b >> 16) & 0xff) as u8))
            && (((a ^ b) >> 24) & 0xff) as u8 == ((((a >> 24) & 0xff) as u8) ^ (((b >> 24)
            & 0xff) as u8))) by (bit_vector);
    }

    fn size() -> (r: usize) {
        4
    }

    fn xor(self, other: u32) -> (r: u32) {
        self ^ other
    }

    fn straddle(lo: u32, hi: u32, bit: usize) -> (r: u32) {
        if bit == 0 {
            lo
        } else {
            (lo >> bit) | (hi << (32 - bit))
        }
    }

    fn read_le(bytes: &[u8], offset: usize) -> (r: u32) {
        (bytes[offset] as u32) | ((bytes[offset + 1] as u32) << 8) | ((bytes[offset
            + 2] as u32) << 16) | ((bytes[offset + 3] as u32) << 24)
    }

    fn write_le(self, bytes: &mut Vec<u8>, offset: usize) {
        proof {
            assert(bytes.len() == bytes@.len());
        }
        bytes.set(offset, #[verifier::truncate] (self as u8));
        bytes.set(offset + 1, #[verifier::truncate] ((self >> 8) as u8));
        bytes.set(offset + 2, #[verifier::truncate] ((self >> 16) as u8));
        bytes.set(offset + 3, #[verifier::truncate] ((self >> 24) as u8));
        proof {
            let v = self;
            assert(v as u8 == (v & 0xff) as u8 && (v >> 8) as u8 == ((v >> 8) & 0xff) as u8 && (v
                >> 16) as u8 == ((v >> 16) & 0xff) as u8 && (v >> 24) as u8 == ((v >> 24)
                & 0xff) as u8) by (bit_vector);
        }
    }
}

impl Word for u64 {
    open spec fn size_spec() -> usize {
        8
    }

    open spec fn align_spec() -> usize {
        8
    }

    open spec fn from_le_spec(s: Seq<u8>) -> u64 {
        (s[0] as u64) | ((s[1] as u64) << 8) | ((s[2] as u64) << 16) | ((s[3] as u64) << 24)
            | ((s[4] as u64) << 32) | ((s[5] as u64) << 40) | ((s[6] as u64) << 48)
            | ((s[7] as u64) << 56)
    }

    open spec fn to_le_spec(self) -> Seq<u8> {
        seq![
            (self & 0xff) as u8,
            ((self >> 8) & 0xff) as u8,
            ((self >> 16) & 0xff) as u8,
            ((self >> 24) & 0xff) as u8,
            ((self >> 32) & 0xff) as u8,
            ((self >> 40) & 0xff) as u8,
            ((self >> 48) & 0xff) as u8,
            ((self >> 56) & 0xff) as u8,
        ]
    }

    open spec fn xor_spec(self, other: u64) -> u64 {
        self ^ other
    }

    open spec fn straddle_spec(lo: u64, hi: u64, bit: usize) -> u64 {
        if bit == 0 {
            lo
        } else {
            (lo >> bit) | (hi << (64 - bit))
        }
    }

    proof fn lemma_size() {
    }

    proof fn lemma_to_le_len(self) {
    }

    proof fn lemma_to_from(s: Seq<u8>) {
        let b0 = s[0];
        let b1 = s[1];
        let b2 = s[2];
        let b3 = s[3];
        let b4 = s[4];
        let b5 = s[5];
        let b6 = s[6];
        let b7 = s[7];
        let x = Self::from_le_spec(s);
        assert((x & 0xff) as u8 == b0 && ((x >> 8) & 0xff) as u8 == b1 && ((x >> 16) & 0xff) as u8
            == b2 && ((x >> 24) & 0xff) as u8 == b3 && ((x >> 32) & 0xff) as u8 == b4 && ((x >> 40)
            & 0xff) as u8 == b5 && ((x >> 48) & 0xff) as u8 == b6 && ((x >> 56) & 0xff) as u8 == b7)
            by (bit_vector)
            requires
                x == (b0 as u64) | ((b1 as u64) << 8) | ((b2 as u64) << 16) | ((b3 as u64) << 24)
                    | ((b4 as u64) << 32) | ((b5 as u64) << 40) | ((b6 as u64) << 48) | (
                (b7 as u64) << 56),
        ;
        assert(x.to_le_spec() =~= s);
    }

    proof fn lemma_from_to(self) {
        let w = self;
        assert(w == (((w & 0xff) as u8) as u64) | ((((w >> 8) & 0xff) as u8) as u64) << 8 | ((((w
            >> 16) & 0xff) as u8) as u64) << 16 | ((((w >> 24) & 0xff) as u8) as u64) << 24 | ((((w
            >> 32) & 0xff) as u8) as u64) << 32 | ((((w >> 40) & 0xff) as u8) as u64) << 40 | ((((w
            >> 48) & 0xff) as u8) as u64) << 48 | ((((w >> 56) & 0xff) as u8) as u64) << 56)
            by (bit_vector);
    }

    proof fn lemma_xor_to_le(self, other: u64) {
        let a = self;
        let b = other;
        assert(((a ^ b) & 0xff) as u8 == (((a & 0xff) as u8) ^ ((b & 0xff) as u8)) && (((a ^ b)
            >> 8) & 0xff) as u8 == ((((a >> 8) & 0xff) as u8) ^ (((b >> 8) & 0xff) as u8)) && (((a
            ^ b) >> 16) & 0xff) as u8 == ((((a >> 16) & 0xff) as u8) ^ (((b >> 16) & 0xff) as u8))
            && (((a ^ b) >> 24) & 0xff) as u8 == ((((a >> 24) & 0xff) as u8) ^ (((b >> 24)
            & 0xff) as u8)) && (((a ^ b) >> 32) & 0xff) as u8 == ((((a >> 32) & 0xff) as u8) ^ (((b
            >> 32) & 0xff) as u8)) && (((a ^ b) >> 40) & 0xff) as u8 == ((((a >> 40)
            & 0xff) as u8) ^ (((b >> 40) & 0xff) as u8)) && (((a ^ b) >> 48) & 0xff) as u8 == ((((a
            >> 48) & 0xff) as u8) ^ (((b >> 48) & 0xff) as u8)) && (((a ^ b) >> 56)
            & 0xff) as u8 == ((((a >> 56) & 0xff) as u8) ^ (((b >> 56) & 0xff) as u8)))
            by (bit_vector);
    }

    fn size() -> (r: usize) {
        8
    }

    fn xor(self, other: u64) -> (r: u64) {
        self ^ other
    }

    fn straddle(lo: u64, hi: u64, bit: usize) -> (r: u64) {
        if bit == 0 {
            lo
        } else {
            (lo >> bit) | (hi << (64 - bit))
        }
    }

    fn read_le(bytes: &[u8], offset: usize) -> (r: u64) {
        (bytes[offset] as u64) | ((bytes[offset + 1] as u64) << 8) | ((bytes[offset
            + 2] as u64) << 16) | ((bytes[offset + 3] as u64) << 24) | ((bytes[offset
            + 4] as u64) << 32) | ((bytes[offset + 5] as u64) << 40) | ((bytes[offset
            + 6] as u64) << 48) | ((bytes[offset + 7] as u64) << 56)
    }

    fn write_le(self, bytes: &mut Vec<u8>, offset: usize) {
        proof {
            assert(bytes.len() == bytes@.len());
        }
        bytes.set(offset, #[verifier::truncate] (self as u8));
        bytes.set(offset + 1, #[verifier::truncate] ((self >> 8) as u8));
        bytes.set(offset + 2, #[verifier::truncate] ((self >> 16) as u8));
        bytes.set(offset + 3, #[verifier::truncate] ((self >> 24) as u8));
        bytes.set(offset + 4, #[verifier::truncate] ((self >> 32) as u8));
        bytes.set(offset + 5, #[verifier::truncate] ((self >> 40) as u8));
        bytes.set(offset + 6, #[verifier::truncate] ((self >> 48) as u8));
        bytes.set(offset + 7, #[verifier::truncate] ((self >> 56) as u8));
        proof {
            let v = self;
            assert(v as u8 == (v & 0xff) as u8 && (v >> 8) as u8 == ((v >> 8) & 0xff) as u8 && (v
                >> 16) as u8 == ((v >> 16) & 0xff) as u8 && (v >> 24) as u8 == ((v >> 24)
                & 0xff) as u8 && (v >> 32) as u8 == ((v >> 32) & 0xff) as u8 && (v >> 40) as u8
                == ((v >> 40) & 0xff) as u8 && (v >> 48) as u8 == ((v >> 48) & 0xff) as u8 && (v
                >> 56) as u8 == ((v >> 56) & 0xff) as u8) by (bit_vector);
        }
    }
}

/// How many whole words of type `W` fit in `n` bytes; a trailing partial
/// word is truncated.
pub open spec fn key_elements<W: Word>(n: int) -> int {
    n / W::size_spec() as int
}

/// The `i`-th word of `bytes`, read little-endian.
pub open spec fn word_at<W: Word>(bytes: Seq<u8>, i: int) -> W {
    W::from_le_spec(bytes.subrange(i * W::size_spec() as int, (i + 1) * W::size_spec() as int))
}

/// The word index a window of `l` words starts at in an `n`-byte key when
/// the requested offset is `off`: the offset wrapped modulo the number of
/// in-bounds start positions.
pub open spec fn window_base<W: Word>(n: int, l: int, off: int) -> int {
    off % (key_elements::<W>(n) + 1 - l)
}

/// In-bounds windowing law: for a window no longer than the key, the
/// wrapped base leaves the whole window inside the key material, whatever
/// the requested offset was.
pub proof fn lemma_window_in_bounds<W: Word>(n: int, l: int, off: int)
    requires
        0 <= l <= key_elements::<W>(n),
        0 <= off,
    ensures
        0 <= window_base::<W>(n, l, off),
        window_base::<W>(n, l, off) + l <= key_elements::<W>(n),
{
}

/// An `N`-byte buffer of secret key material, immutable after
/// construction. Its view is the byte sequence it holds.
pub struct Key<const N: usize> {
    bytes: [u8; N],
}

impl<const N: usize> View for Key<N> {
    type V = Seq<u8>;

    closed spec fn view(&self) -> Seq<u8> {
        self.bytes@
    }
}

impl<const N: usize> Key<N> {
    /// The view of a key is exactly its `N` bytes.
    pub proof fn lemma_len(&self)
        ensures
            self@.len() == N,
    {
    }

    /// Creates a new key holding the bytes of `key`.
    pub fn new(key: [u8; N]) -> (r: Self)
        ensures
            r@ == key@,
    {
        Key { bytes: key }
    }

    /// Number of whole words of type `W` in this key. Asking for a
    /// window of `L` words that do not fit is a configuration error, not
    /// a data-dependent one, so it is ruled out by precondition rather
    /// than reported at run time.
    fn check_element_length<W: Word, const L: usize>(&self) -> (r: usize)
        requires
            L as int <= key_elements::<W>(N as int),
        ensures
            r as int == key_elements::<W>(N as int),
            L <= r,
    {
        proof {
            W::lemma_size();
        }
        N / W::size()
    }

    /// Returns the window of `L` words of type `W` starting at word index
    /// `word_offset` wrapped modulo the number of in-bounds start
    /// positions, so the window always lies inside the key.
    pub fn subkey<W: Word, const L: usize>(&self, word_offset: usize) -> (r: Vec<W>)
        requires
            L as int <= key_elements::<W>(N as int),
        ensures
            r@.len() == L,
            forall|i: int|
                0 <= i < L ==> r@[i] == word_at::<W>(
                    self@,
                    window_base::<W>(N as int, L as int, word_offset as int) + i,
                ),
    {
        if L == 0 {
            return Vec::new();
        }
        let key_elements = self.check_element_length::<W, L>();
        // We need `L` contiguous words, so the maximum start index
        // (exclusive) is `L - 1` words before the end of the key.
        let max_index = (key_elements - L) + 1;
        // Ensure the start offset is in range.
        let offset = word_offset % max_index;
        self.read_words::<W>(offset, L)
    }

    /// Reinterprets the whole key as a word array, truncating a trailing
    /// partial word.
    pub fn as_words<W: Word>(&self) -> (r: Vec<W>)
        ensures
            r@.len() == key_elements::<W>(N as int),
            forall|i: int| 0 <= i < r@.len() ==> r@[i] == word_at::<W>(self@, i),
    {
        proof {
            W::lemma_size();
        }
        let key_elements = N / W::size();
        self.read_words::<W>(0, key_elements)
    }

    /// Copies `count` words out of the key, starting at word index `offset`.
    fn read_words<W: Word>(&self, offset: usize, count: usize) -> (r: Vec<W>)
        requires
            offset + count <= key_elements::<W>(N as int),
        ensures
            r@.len() == count,
            forall|i: int| 0 <= i < count ==> r@[i] == word_at::<W>(self@, offset + i),
    {
        proof {
            W::lemma_size();
        }
        let s = W::size();
        let slice = self.bytes.as_slice();
        let mut r: Vec<W> = Vec::new();
        let mut i: usize = 0;
        while i < count
            invariant
                i <= count,
                r@.len() == i,
                s == W::size_spec(),
                1 <= s <= 8,
                offset + count <= key_elements::<W>(N as int),
                slice@ == self@,
                slice@.len() == N,
                forall|t: int| 0 <= t < i ==> r@[t] == word_at::<W>(self@, offset + t),
            decreases count - i,
        {
            proof {
                lemma_word_offset_in_bounds::<W>(N as int, offset as int, i as int, count as int);
            }
            let w = W::read_le(slice, (offset + i) * s);
            proof {
                assert(slice@.subrange(
                    (offset + i) * s as int,
                    (offset + i) * s as int + s as int,
                ) =~= self@.subrange(
                    (offset + i as int) * W::size_spec() as int,
                    (offset + i as int + 1) * W::size_spec() as int,
                ));
            }
            r.push(w);
            i += 1;
        }
        r
    }
}

/// A word window that starts in bounds also ends in bounds, at the byte
/// level: word `offset + i` of an `n`-byte buffer occupies bytes below
/// `n`.
proof fn lemma_word_offset_in_bounds<W: Word>(n: int, offset: int, i: int, count: int)
    requires
        0 <= offset,
        0 <= i < count,
        offset + count <= key_elements::<W>(n),
        1 <= W::size_spec() <= 8,
    ensures
        (offset + i) * W::size_spec() as int + W::size_spec() as int <= n,
        (offset + i) * W::size_spec() as int + W::size_spec() as int == (offset + i + 1)
            * W::size_spec() as int,
        0 <= (offset + i) * W::size_spec() as int,
{
    let s = W::size_spec() as int;
    let ke = key_elements::<W>(n);
    assert((offset + i) * s + s == (offset + i + 1) * s) by (nonlinear_arith);
    assert((offset + i + 1) * s <= ke * s) by (nonlinear_arith)
        requires
            offset + i + 1 <= ke,
            s >= 1,
    ;
    assert(ke * s <= n) by {
        vstd::arithmetic::div_mod::lemma_fundamental_div_mod(n, s);
    }
    assert(0 <= (offset + i) * s) by (nonlinear_arith)
        requires
            0 <= offset + i,
            s >= 1,
    ;
}

} // verus!
